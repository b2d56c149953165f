//! The code emitter.
//!
//! For each named type, in name-resolution order, this renders the
//! declaration chosen by the representation strategy together with its
//! operation set, as text in the target representation language. The
//! output assumes three runtime dependencies supplied by the embedding
//! environment — an owned-text handle type, an owned-sequence handle
//! type, and an allocate/deallocate capability pair — which are referenced
//! by name and never redefined here.
//!
//! Every executable rendering function is specified against a spec-level
//! text function of the same shape, so the whole emission is a pure
//! function of the type graph: running it twice on the same graph yields
//! byte-identical output.

use vstd::prelude::*;
use vstd::string::StringExecFns;

use crate::caps::Caps;
use crate::caps::type_caps;
use crate::decimal::dec_str;
use crate::decimal::push_decimal;
use crate::layout::Slot;
use crate::layout::SlotModel;
use crate::layout::slot_models;
use crate::names::NameState;
use crate::names::NameTable;
use crate::names::name_slot_models;
use crate::names::table_models;
use crate::types::Primitive;
use crate::types::StructuralType;
use crate::types::TypeArena;
use crate::types::TypeModel;
use crate::types::graph_wf;
use crate::types::node_wf;

verus! {

/// The resolved name of a type, or a placeholder no well-formed run ever
/// reaches: every emitted identifier was named by the resolution walk.
pub open spec fn name_of(st: NameState, id: int) -> Seq<char> {
    if st.names.contains_key(id) {
        st.names[id]
    } else {
        "Unnamed"@
    }
}

/// The textual name of a primitive in the target language.
pub open spec fn primitive_ref(p: Primitive) -> Seq<char> {
    match p {
        Primitive::Unit => "()"@,
        Primitive::Bool => "bool"@,
        Primitive::U8 => "u8"@,
        Primitive::U16 => "u16"@,
        Primitive::U32 => "u32"@,
        Primitive::U64 => "u64"@,
        Primitive::U128 => "u128"@,
        Primitive::I8 => "i8"@,
        Primitive::I16 => "i16"@,
        Primitive::I32 => "i32"@,
        Primitive::I64 => "i64"@,
        Primitive::I128 => "i128"@,
        Primitive::F32 => "f32"@,
        Primitive::F64 => "f64"@,
    }
}

/// The text that refers to the type `id` from inside another declaration:
/// a primitive name, one of the runtime handle types, or the type's
/// resolved name.
pub open spec fn type_ref(g: Seq<TypeModel>, st: NameState, id: int) -> Seq<char>
    decreases id, 0int,
{
    if 0 <= id < g.len() {
        match g[id] {
            TypeModel::Primitive(p) => primitive_ref(p),
            TypeModel::Text => "roc_std::RocStr"@,
            TypeModel::Sequence(e) => if 0 <= e < id {
                "roc_std::RocList<"@ + type_ref(g, st, e) + ">"@
            } else {
                "roc_std::RocList<"@ + "Unnamed"@ + ">"@
            },
            TypeModel::Record(_) => name_of(st, id),
            TypeModel::TagUnion(_) => name_of(st, id),
            TypeModel::SelfReference => name_of(st, id),
        }
    } else {
        "Unnamed"@
    }
}

fn primitive_ref_exec(p: &Primitive) -> (r: &'static str)
    ensures
        r@ == primitive_ref(*p),
{
    match p {
        Primitive::Unit => "()",
        Primitive::Bool => "bool",
        Primitive::U8 => "u8",
        Primitive::U16 => "u16",
        Primitive::U32 => "u32",
        Primitive::U64 => "u64",
        Primitive::U128 => "u128",
        Primitive::I8 => "i8",
        Primitive::I16 => "i16",
        Primitive::I32 => "i32",
        Primitive::I64 => "i64",
        Primitive::I128 => "i128",
        Primitive::F32 => "f32",
        Primitive::F64 => "f64",
    }
}

/// Appends the resolved name of `id`.
fn push_name(table: &NameTable, id: usize, out: &mut String, Ghost(st): Ghost<NameState>, Ghost(
    n,
): Ghost<int>)
    requires
        table_models(*table, n, st),
        id < n,
    ensures
        final(out)@ == old(out)@ + name_of(st, id as int),
{
    match &table.names[id] {
        Some(s) => {
            proof {
                assert(name_slot_models(table.names@[id as int], st.names, id as int));
            }
            out.append(s.as_str());
        },
        None => {
            proof {
                assert(name_slot_models(table.names@[id as int], st.names, id as int));
            }
            out.append("Unnamed");
        },
    }
}

/// Appends the reference text of the type `id`.
fn push_type_ref(
    arena: &TypeArena,
    table: &NameTable,
    id: usize,
    out: &mut String,
    Ghost(st): Ghost<NameState>,
)
    requires
        table_models(*table, arena@.len() as int, st),
    ensures
        final(out)@ == old(out)@ + type_ref(arena@, st, id as int),
    decreases id as int, 0int,
{
    if id >= arena.len() {
        out.append("Unnamed");
        return ;
    }
    let node = arena.resolve(id);
    match node {
        StructuralType::Primitive(p) => {
            out.append(primitive_ref_exec(p));
        },
        StructuralType::Text => {
            out.append("roc_std::RocStr");
        },
        StructuralType::Sequence(e) => {
            out.append("roc_std::RocList<");
            if *e < id {
                push_type_ref(arena, table, *e, out, Ghost(st));
            } else {
                out.append("Unnamed");
            }
            out.append(">");
            proof {
                assert(out@ =~= old(out)@ + type_ref(arena@, st, id as int));
            }
        },
        StructuralType::Record(_) => {
            push_name(table, id, out, Ghost(st), Ghost(arena@.len() as int));
        },
        StructuralType::TagUnion(_) => {
            push_name(table, id, out, Ghost(st), Ghost(arena@.len() as int));
        },
        StructuralType::SelfReference => {
            push_name(table, id, out, Ghost(st), Ghost(arena@.len() as int));
        },
    }
}

/// The derive attribute carrying exactly the capability set: duplication
/// and partial comparison always, the rest as analysed.
pub open spec fn derive_line(caps: Caps) -> Seq<char> {
    "#[derive(Clone, "@ + (if caps.copy {
        "Copy, "@
    } else {
        Seq::empty()
    }) + "Debug, "@ + (if caps.default {
        "Default, "@
    } else {
        Seq::empty()
    }) + (if caps.total_ord {
        "Eq, Ord, Hash, "@
    } else {
        Seq::empty()
    }) + "PartialEq, PartialOrd)]\n"@
}

/// Appends the derive attribute for this capability set.
fn push_derive_line(caps: &Caps, out: &mut String)
    ensures
        final(out)@ == old(out)@ + derive_line(*caps),
{
    out.append("#[derive(Clone, ");
    if caps.copy {
        out.append("Copy, ");
    }
    out.append("Debug, ");
    if caps.default {
        out.append("Default, ");
    }
    if caps.total_ord {
        out.append("Eq, Ord, Hash, ");
    }
    out.append("PartialEq, PartialOrd)]\n");
    proof {
        assert(out@ =~= old(out)@ + derive_line(*caps));
    }
}

/// One struct field line per slot, from position `from` on.
pub open spec fn slot_lines(g: Seq<TypeModel>, st: NameState, slots: Seq<SlotModel>, from: int) -> Seq<
    char,
>
    decreases slots.len() - from,
{
    if !(0 <= from < slots.len()) {
        Seq::empty()
    } else {
        "    "@ + slots[from].name + ": "@ + type_ref(g, st, slots[from].ty) + ",\n"@ + slot_lines(
            g,
            st,
            slots,
            from + 1,
        )
    }
}

fn push_slot_lines(
    arena: &TypeArena,
    table: &NameTable,
    slots: &Vec<Slot>,
    from: usize,
    out: &mut String,
    Ghost(st): Ghost<NameState>,
)
    requires
        table_models(*table, arena@.len() as int, st),
        from <= slots@.len(),
    ensures
        final(out)@ == old(out)@ + slot_lines(arena@, st, slot_models(slots@), from as int),
    decreases slots@.len() - from,
{
    if from < slots.len() {
        out.append("    ");
        out.append(slots[from].name.as_str());
        out.append(": ");
        push_type_ref(arena, table, slots[from].ty, out, Ghost(st));
        out.append(",\n");
        push_slot_lines(arena, table, slots, from + 1, out, Ghost(st));
        proof {
            assert(slot_models(slots@)[from as int] == slots@[from as int]@);
            assert(out@ =~= old(out)@ + slot_lines(
                arena@,
                st,
                slot_models(slots@),
                from as int,
            ));
        }
    }
}

/// A plain struct declaration: the derive line, a C layout, and the slots
/// in layout order.
pub open spec fn struct_text(
    g: Seq<TypeModel>,
    st: NameState,
    name: Seq<char>,
    caps: Caps,
    slots: Seq<SlotModel>,
) -> Seq<char> {
    derive_line(caps) + "#[repr(C)]\npub struct "@ + name + " {\n"@ + slot_lines(g, st, slots, 0)
        + "}\n"@
}

fn push_struct_text(
    arena: &TypeArena,
    table: &NameTable,
    name: &String,
    caps: &Caps,
    slots: &Vec<Slot>,
    out: &mut String,
    Ghost(st): Ghost<NameState>,
)
    requires
        table_models(*table, arena@.len() as int, st),
    ensures
        final(out)@ == old(out)@ + struct_text(arena@, st, name@, *caps, slot_models(slots@)),
{
    push_derive_line(caps, out);
    out.append("#[repr(C)]\npub struct ");
    out.append(name.as_str());
    out.append(" {\n");
    push_slot_lines(arena, table, slots, 0, out, Ghost(st));
    out.append("}\n");
    proof {
        assert(out@ =~= old(out)@ + struct_text(arena@, st, name@, *caps, slot_models(slots@)));
    }
}

/// A transparent wrapper declaration: a one-field newtype with no
/// discriminant, for the single-variant, single-payload union.
pub open spec fn transparent_text(
    g: Seq<TypeModel>,
    st: NameState,
    name: Seq<char>,
    caps: Caps,
    payload: int,
) -> Seq<char> {
    derive_line(caps) + "#[repr(transparent)]\npub struct "@ + name + "("@ + type_ref(
        g,
        st,
        payload,
    ) + ");\n"@
}

fn push_transparent_text(
    arena: &TypeArena,
    table: &NameTable,
    name: &String,
    caps: &Caps,
    payload: usize,
    out: &mut String,
    Ghost(st): Ghost<NameState>,
)
    requires
        table_models(*table, arena@.len() as int, st),
    ensures
        final(out)@ == old(out)@ + transparent_text(arena@, st, name@, *caps, payload as int),
{
    push_derive_line(caps, out);
    out.append("#[repr(transparent)]\npub struct ");
    out.append(name.as_str());
    out.append("(");
    push_type_ref(arena, table, payload, out, Ghost(st));
    out.append(");\n");
    proof {
        assert(out@ =~= old(out)@ + transparent_text(
            arena@,
            st,
            name@,
            *caps,
            payload as int,
        ));
    }
}

/// Whether the variant carries a payload.
pub open spec fn has_payload(v: crate::types::VariantModel) -> bool {
    v.payloads.len() > 0
}

/// The single payload type of a variant in a multi-variant union.
pub open spec fn payload_ty(v: crate::types::VariantModel) -> int {
    v.payloads[0]
}

/// Whether the payload is trivially copyable, hence left bare inside the
/// payload union; anything owning is wrapped so default destruction never
/// runs on it.
pub open spec fn payload_copy(g: Seq<TypeModel>, v: crate::types::VariantModel) -> bool {
    type_caps(g, payload_ty(v)).copy
}

/// The member type of the payload union for one variant.
pub open spec fn member_ref(g: Seq<TypeModel>, st: NameState, v: crate::types::VariantModel) -> Seq<
    char,
> {
    if payload_copy(g, v) {
        type_ref(g, st, payload_ty(v))
    } else {
        "core::mem::ManuallyDrop<"@ + type_ref(g, st, payload_ty(v)) + ">"@
    }
}

/// Every payload identifier lies below `n`.
pub open spec fn variants_payloads_in(svm: Seq<crate::types::VariantModel>, n: int) -> bool {
    forall|j: int, k: int|
        0 <= j < svm.len() && 0 <= k < (#[trigger] svm[j]).payloads.len() ==> 0
            <= #[trigger] svm[j].payloads[k] < n
}

/// One enumeration line per variant: the discriminant value is the
/// alphabetical rank of the tag name.
pub open spec fn tag_lines(svm: Seq<crate::types::VariantModel>, from: int) -> Seq<char>
    decreases svm.len() - from,
{
    if !(0 <= from < svm.len()) {
        Seq::empty()
    } else {
        "    "@ + svm[from].name + " = "@ + dec_str(from as nat) + ",\n"@ + tag_lines(
            svm,
            from + 1,
        )
    }
}

fn push_tag_lines(sv: &Vec<crate::types::Variant>, from: usize, out: &mut String)
    requires
        from <= sv@.len(),
    ensures
        final(out)@ == old(out)@ + tag_lines(crate::order::variant_models(sv@), from as int),
    decreases sv@.len() - from,
{
    let ghost svm = crate::order::variant_models(sv@);
    if from < sv.len() {
        out.append("    ");
        out.append(sv[from].name.as_str());
        out.append(" = ");
        push_decimal(out, from as u128);
        out.append(",\n");
        push_tag_lines(sv, from + 1, out);
        proof {
            assert(svm[from as int] == sv@[from as int]@);
            assert(out@ =~= old(out)@ + tag_lines(svm, from as int));
        }
    }
}

/// An enumeration declaration: one byte of discriminant, variants listed
/// and numbered in alphabetical order.
pub open spec fn enum_text(name: Seq<char>, caps: Caps, svm: Seq<crate::types::VariantModel>) -> Seq<
    char,
> {
    derive_line(caps) + "#[repr(u8)]\npub enum "@ + name + " {\n"@ + tag_lines(svm, 0) + "}\n"@
}

fn push_enum_text(
    name: &str,
    caps: &Caps,
    sv: &Vec<crate::types::Variant>,
    out: &mut String,
)
    ensures
        final(out)@ == old(out)@ + enum_text(name@, *caps, crate::order::variant_models(sv@)),
{
    push_derive_line(caps, out);
    out.append("#[repr(u8)]\npub enum ");
    out.append(name);
    out.append(" {\n");
    push_tag_lines(sv, 0, out);
    out.append("}\n");
    proof {
        assert(out@ =~= old(out)@ + enum_text(name@, *caps, crate::order::variant_models(sv@)));
    }
}

/// One payload-union member line per non-empty variant.
pub open spec fn union_member_lines(
    g: Seq<TypeModel>,
    st: NameState,
    svm: Seq<crate::types::VariantModel>,
    from: int,
) -> Seq<char>
    decreases svm.len() - from,
{
    if !(0 <= from < svm.len()) {
        Seq::empty()
    } else {
        (if has_payload(svm[from]) {
            "    "@ + svm[from].name + ": "@ + member_ref(g, st, svm[from]) + ",\n"@
        } else {
            Seq::empty()
        }) + union_member_lines(g, st, svm, from + 1)
    }
}

fn push_union_member_lines(
    arena: &TypeArena,
    table: &NameTable,
    sv: &Vec<crate::types::Variant>,
    from: usize,
    out: &mut String,
    Ghost(st): Ghost<NameState>,
)
    requires
        graph_wf(arena@),
        table_models(*table, arena@.len() as int, st),
        variants_payloads_in(crate::order::variant_models(sv@), arena@.len() as int),
        from <= sv@.len(),
    ensures
        final(out)@ == old(out)@ + union_member_lines(
            arena@,
            st,
            crate::order::variant_models(sv@),
            from as int,
        ),
    decreases sv@.len() - from,
{
    let ghost svm = crate::order::variant_models(sv@);
    if from < sv.len() {
        proof {
            assert(svm[from as int] == sv@[from as int]@);
        }
        if sv[from].payloads.len() > 0 {
            let p = sv[from].payloads[0];
            proof {
                assert(svm[from as int].payloads[0] == p as int);
                assert(0 <= svm[from as int].payloads[0] < arena@.len());
            }
            out.append("    ");
            out.append(sv[from].name.as_str());
            out.append(": ");
            let c = crate::caps::caps_of(arena, p);
            if c.copy {
                push_type_ref(arena, table, p, out, Ghost(st));
            } else {
                out.append("core::mem::ManuallyDrop<");
                push_type_ref(arena, table, p, out, Ghost(st));
                out.append(">");
            }
            out.append(",\n");
        }
        push_union_member_lines(arena, table, sv, from + 1, out, Ghost(st));
        proof {
            assert(out@ =~= old(out)@ + union_member_lines(arena@, st, svm, from as int));
        }
    }
}

/// The payload union: one member per non-empty variant, sized by its
/// largest member.
pub open spec fn union_block_text(
    g: Seq<TypeModel>,
    st: NameState,
    name: Seq<char>,
    svm: Seq<crate::types::VariantModel>,
) -> Seq<char> {
    "#[repr(C)]\npub union union_"@ + name + " {\n"@ + union_member_lines(g, st, svm, 0) + "}\n"@
}

fn push_union_block_text(
    arena: &TypeArena,
    table: &NameTable,
    name: &str,
    sv: &Vec<crate::types::Variant>,
    out: &mut String,
    Ghost(st): Ghost<NameState>,
)
    requires
        graph_wf(arena@),
        table_models(*table, arena@.len() as int, st),
        variants_payloads_in(crate::order::variant_models(sv@), arena@.len() as int),
    ensures
        final(out)@ == old(out)@ + union_block_text(
            arena@,
            st,
            name@,
            crate::order::variant_models(sv@),
        ),
{
    out.append("#[repr(C)]\npub union union_");
    out.append(name);
    out.append(" {\n");
    push_union_member_lines(arena, table, sv, 0, out, Ghost(st));
    out.append("}\n");
    proof {
        assert(out@ =~= old(out)@ + union_block_text(
            arena@,
            st,
            name@,
            crate::order::variant_models(sv@),
        ));
    }
}

/// The outer struct: the payload union next to the explicit discriminant.
pub open spec fn struct_block_text(name: Seq<char>) -> Seq<char> {
    "#[repr(C)]\npub struct "@ + name + " {\n    variant: union_"@ + name + ",\n    tag: tag_"@
        + name + ",\n}\n"@
}

fn push_struct_block_text(name: &str, out: &mut String)
    ensures
        final(out)@ == old(out)@ + struct_block_text(name@),
{
    out.append("#[repr(C)]\npub struct ");
    out.append(name);
    out.append(" {\n    variant: union_");
    out.append(name);
    out.append(",\n    tag: tag_");
    out.append(name);
    out.append(",\n}\n");
    proof {
        assert(out@ =~= old(out)@ + struct_block_text(name@));
    }
}

/// The constructor of one variant.
pub open spec fn vm_ctor(
    g: Seq<TypeModel>,
    st: NameState,
    name: Seq<char>,
    v: crate::types::VariantModel,
) -> Seq<char> {
    if !has_payload(v) {
        "\n    /// Construct a tag named "@ + v.name + "\n    pub fn "@ + v.name
            + "() -> Self {\n        Self {\n            tag: tag_"@ + name + "::"@ + v.name
            + ",\n            variant: unsafe {\n                core::mem::transmute::<\n                    core::mem::MaybeUninit<union_"@
            + name + ">,\n                    union_"@ + name
            + ",\n                >(core::mem::MaybeUninit::uninit())\n            },\n        }\n    }\n"@
    } else {
        "\n    /// Construct a tag named "@ + v.name
            + ", with the appropriate payload\n    pub fn "@ + v.name + "(payload: "@ + type_ref(
            g,
            st,
            payload_ty(v),
        ) + ") -> Self {\n        Self {\n            tag: tag_"@ + name + "::"@ + v.name
            + ",\n            variant: union_"@ + name + " {\n                "@ + v.name + (
        if payload_copy(g, v) {
            ": payload\n            },\n        }\n    }\n"@
        } else {
            ": core::mem::ManuallyDrop::new(payload)\n            },\n        }\n    }\n"@
        })
    }
}

/// The consuming accessor of one variant: it extracts and owns the
/// payload, and its text documents the discriminant obligation.
pub open spec fn vm_into(
    g: Seq<TypeModel>,
    st: NameState,
    name: Seq<char>,
    v: crate::types::VariantModel,
) -> Seq<char> {
    if !has_payload(v) {
        "\n    /// Other `into_` methods return a payload, but since the "@ + v.name
            + " tag\n    /// has no payload, this does nothing and is only here for completeness.\n    pub fn into_"@
            + v.name + "(self) -> () {\n        ()\n    }\n"@
    } else {
        "\n    /// Unsafely assume the given "@ + name + " has a .tag() of "@ + v.name
            + " and convert it to "@ + v.name
            + "'s payload.\n    /// (always examine .tag() first to make sure this is the correct variant!)\n    pub unsafe fn into_"@
            + v.name + (if payload_copy(g, v) {
            "(self) -> "@ + type_ref(g, st, payload_ty(v)) + " {\n        self.variant."@ + v.name
                + "\n    }\n"@
        } else {
            "(mut self) -> "@ + type_ref(g, st, payload_ty(v))
                + " {\n        core::mem::ManuallyDrop::take(&mut self.variant."@ + v.name
                + ")\n    }\n"@
        })
    }
}

/// The borrowing accessor of one variant.
pub open spec fn vm_as(
    g: Seq<TypeModel>,
    st: NameState,
    name: Seq<char>,
    v: crate::types::VariantModel,
) -> Seq<char> {
    if !has_payload(v) {
        "\n    /// Other `as` methods return a payload, but since the "@ + v.name
            + " tag\n    /// has no payload, this does nothing and is only here for completeness.\n    pub unsafe fn as_"@
            + v.name + "(&self) -> () {\n        ()\n    }\n"@
    } else {
        "\n    /// Unsafely assume the given "@ + name + " has a .tag() of "@ + v.name
            + " and return its payload.\n    /// (always examine .tag() first to make sure this is the correct variant!)\n    pub unsafe fn as_"@
            + v.name + (if payload_copy(g, v) {
            "(&self) -> "@ + type_ref(g, st, payload_ty(v)) + " {\n        self.variant."@
                + v.name + "\n    }\n"@
        } else {
            "(&self) -> &"@ + type_ref(g, st, payload_ty(v)) + " {\n        &self.variant."@
                + v.name + "\n    }\n"@
        })
    }
}

/// The constructor and the two discriminant-gated accessors of one
/// variant. Both accessors carry the caller's obligation in their text:
/// the discriminant must have been inspected first.
pub open spec fn variant_methods(
    g: Seq<TypeModel>,
    st: NameState,
    name: Seq<char>,
    v: crate::types::VariantModel,
) -> Seq<char> {
    vm_ctor(g, st, name, v) + vm_into(g, st, name, v) + vm_as(g, st, name, v)
}

fn push_vm_ctor(
    arena: &TypeArena,
    table: &NameTable,
    name: &str,
    v: &crate::types::Variant,
    out: &mut String,
    Ghost(st): Ghost<NameState>,
)
    requires
        graph_wf(arena@),
        table_models(*table, arena@.len() as int, st),
        v@.payloads.len() > 0 ==> 0 <= v@.payloads[0] < arena@.len(),
    ensures
        final(out)@ == old(out)@ + vm_ctor(arena@, st, name@, v@),
{
    if v.payloads.len() == 0 {
        out.append("\n    /// Construct a tag named ");
        out.append(v.name.as_str());
        out.append("\n    pub fn ");
        out.append(v.name.as_str());
        out.append("() -> Self {\n        Self {\n            tag: tag_");
        out.append(name);
        out.append("::");
        out.append(v.name.as_str());
        out.append(
            ",\n            variant: unsafe {\n                core::mem::transmute::<\n                    core::mem::MaybeUninit<union_",
        );
        out.append(name);
        out.append(">,\n                    union_");
        out.append(name);
        out.append(
            ",\n                >(core::mem::MaybeUninit::uninit())\n            },\n        }\n    }\n",
        );
        proof {
            assert(out@ =~= old(out)@ + vm_ctor(arena@, st, name@, v@));
        }
    } else {
        let p = v.payloads[0];
        proof {
            assert(v@.payloads[0] == p as int);
        }
        let c = crate::caps::caps_of(arena, p);
        out.append("\n    /// Construct a tag named ");
        out.append(v.name.as_str());
        out.append(", with the appropriate payload\n    pub fn ");
        out.append(v.name.as_str());
        out.append("(payload: ");
        push_type_ref(arena, table, p, out, Ghost(st));
        out.append(") -> Self {\n        Self {\n            tag: tag_");
        out.append(name);
        out.append("::");
        out.append(v.name.as_str());
        out.append(",\n            variant: union_");
        out.append(name);
        out.append(" {\n                ");
        out.append(v.name.as_str());
        if c.copy {
            out.append(": payload\n            },\n        }\n    }\n");
        } else {
            out.append(
                ": core::mem::ManuallyDrop::new(payload)\n            },\n        }\n    }\n",
            );
        }
        proof {
            assert(out@ =~= old(out)@ + vm_ctor(arena@, st, name@, v@));
        }
    }
}

fn push_vm_into(
    arena: &TypeArena,
    table: &NameTable,
    name: &str,
    v: &crate::types::Variant,
    out: &mut String,
    Ghost(st): Ghost<NameState>,
)
    requires
        graph_wf(arena@),
        table_models(*table, arena@.len() as int, st),
        v@.payloads.len() > 0 ==> 0 <= v@.payloads[0] < arena@.len(),
    ensures
        final(out)@ == old(out)@ + vm_into(arena@, st, name@, v@),
{
    if v.payloads.len() == 0 {
        out.append("\n    /// Other `into_` methods return a payload, but since the ");
        out.append(v.name.as_str());
        out.append(
            " tag\n    /// has no payload, this does nothing and is only here for completeness.\n    pub fn into_",
        );
        out.append(v.name.as_str());
        out.append("(self) -> () {\n        ()\n    }\n");
        proof {
            assert(out@ =~= old(out)@ + vm_into(arena@, st, name@, v@));
        }
    } else {
        let p = v.payloads[0];
        proof {
            assert(v@.payloads[0] == p as int);
        }
        let c = crate::caps::caps_of(arena, p);
        out.append("\n    /// Unsafely assume the given ");
        out.append(name);
        out.append(" has a .tag() of ");
        out.append(v.name.as_str());
        out.append(" and convert it to ");
        out.append(v.name.as_str());
        out.append(
            "'s payload.\n    /// (always examine .tag() first to make sure this is the correct variant!)\n    pub unsafe fn into_",
        );
        out.append(v.name.as_str());
        if c.copy {
            out.append("(self) -> ");
            push_type_ref(arena, table, p, out, Ghost(st));
            out.append(" {\n        self.variant.");
            out.append(v.name.as_str());
            out.append("\n    }\n");
        } else {
            out.append("(mut self) -> ");
            push_type_ref(arena, table, p, out, Ghost(st));
            out.append(" {\n        core::mem::ManuallyDrop::take(&mut self.variant.");
            out.append(v.name.as_str());
            out.append(")\n    }\n");
        }
        proof {
            assert(out@ =~= old(out)@ + vm_into(arena@, st, name@, v@));
        }
    }
}

fn push_vm_as(
    arena: &TypeArena,
    table: &NameTable,
    name: &str,
    v: &crate::types::Variant,
    out: &mut String,
    Ghost(st): Ghost<NameState>,
)
    requires
        graph_wf(arena@),
        table_models(*table, arena@.len() as int, st),
        v@.payloads.len() > 0 ==> 0 <= v@.payloads[0] < arena@.len(),
    ensures
        final(out)@ == old(out)@ + vm_as(arena@, st, name@, v@),
{
    if v.payloads.len() == 0 {
        out.append("\n    /// Other `as` methods return a payload, but since the ");
        out.append(v.name.as_str());
        out.append(
            " tag\n    /// has no payload, this does nothing and is only here for completeness.\n    pub unsafe fn as_",
        );
        out.append(v.name.as_str());
        out.append("(&self) -> () {\n        ()\n    }\n");
        proof {
            assert(out@ =~= old(out)@ + vm_as(arena@, st, name@, v@));
        }
    } else {
        let p = v.payloads[0];
        proof {
            assert(v@.payloads[0] == p as int);
        }
        let c = crate::caps::caps_of(arena, p);
        out.append("\n    /// Unsafely assume the given ");
        out.append(name);
        out.append(" has a .tag() of ");
        out.append(v.name.as_str());
        out.append(
            " and return its payload.\n    /// (always examine .tag() first to make sure this is the correct variant!)\n    pub unsafe fn as_",
        );
        out.append(v.name.as_str());
        if c.copy {
            out.append("(&self) -> ");
            push_type_ref(arena, table, p, out, Ghost(st));
            out.append(" {\n        self.variant.");
            out.append(v.name.as_str());
            out.append("\n    }\n");
        } else {
            out.append("(&self) -> &");
            push_type_ref(arena, table, p, out, Ghost(st));
            out.append(" {\n        &self.variant.");
            out.append(v.name.as_str());
            out.append("\n    }\n");
        }
        proof {
            assert(out@ =~= old(out)@ + vm_as(arena@, st, name@, v@));
        }
    }
}

fn push_variant_methods(
    arena: &TypeArena,
    table: &NameTable,
    name: &str,
    v: &crate::types::Variant,
    out: &mut String,
    Ghost(st): Ghost<NameState>,
)
    requires
        graph_wf(arena@),
        table_models(*table, arena@.len() as int, st),
        v@.payloads.len() > 0 ==> 0 <= v@.payloads[0] < arena@.len(),
    ensures
        final(out)@ == old(out)@ + variant_methods(arena@, st, name@, v@),
{
    push_vm_ctor(arena, table, name, v, out, Ghost(st));
    push_vm_into(arena, table, name, v, out, Ghost(st));
    push_vm_as(arena, table, name, v, out, Ghost(st));
    proof {
        assert(out@ =~= old(out)@ + variant_methods(arena@, st, name@, v@));
    }
}

/// The methods of all variants from `from` on, in alphabetical order.
pub open spec fn methods_lines(
    g: Seq<TypeModel>,
    st: NameState,
    name: Seq<char>,
    svm: Seq<crate::types::VariantModel>,
    from: int,
) -> Seq<char>
    decreases svm.len() - from,
{
    if !(0 <= from < svm.len()) {
        Seq::empty()
    } else {
        variant_methods(g, st, name, svm[from]) + methods_lines(g, st, name, svm, from + 1)
    }
}

fn push_methods_lines(
    arena: &TypeArena,
    table: &NameTable,
    name: &str,
    sv: &Vec<crate::types::Variant>,
    from: usize,
    out: &mut String,
    Ghost(st): Ghost<NameState>,
)
    requires
        graph_wf(arena@),
        table_models(*table, arena@.len() as int, st),
        variants_payloads_in(crate::order::variant_models(sv@), arena@.len() as int),
        from <= sv@.len(),
    ensures
        final(out)@ == old(out)@ + methods_lines(
            arena@,
            st,
            name@,
            crate::order::variant_models(sv@),
            from as int,
        ),
    decreases sv@.len() - from,
{
    let ghost svm = crate::order::variant_models(sv@);
    if from < sv.len() {
        proof {
            assert(svm[from as int] == sv@[from as int]@);
        }
        push_variant_methods(arena, table, name, &sv[from], out, Ghost(st));
        push_methods_lines(arena, table, name, sv, from + 1, out, Ghost(st));
        proof {
            assert(out@ =~= old(out)@ + methods_lines(arena@, st, name@, svm, from as int));
        }
    }
}

/// The inherent impl: the discriminant reader and, per variant, the
/// constructor and the pair of accessors.
pub open spec fn impl_block_text(
    g: Seq<TypeModel>,
    st: NameState,
    name: Seq<char>,
    svm: Seq<crate::types::VariantModel>,
) -> Seq<char> {
    "impl "@ + name + " {\n    pub fn tag(&self) -> tag_"@ + name
        + " {\n        self.tag\n    }\n"@ + methods_lines(g, st, name, svm, 0) + "}\n"@
}

fn push_impl_block_text(
    arena: &TypeArena,
    table: &NameTable,
    name: &str,
    sv: &Vec<crate::types::Variant>,
    out: &mut String,
    Ghost(st): Ghost<NameState>,
)
    requires
        graph_wf(arena@),
        table_models(*table, arena@.len() as int, st),
        variants_payloads_in(crate::order::variant_models(sv@), arena@.len() as int),
    ensures
        final(out)@ == old(out)@ + impl_block_text(
            arena@,
            st,
            name@,
            crate::order::variant_models(sv@),
        ),
{
    out.append("impl ");
    out.append(name);
    out.append(" {\n    pub fn tag(&self) -> tag_");
    out.append(name);
    out.append(" {\n        self.tag\n    }\n");
    push_methods_lines(arena, table, name, sv, 0, out, Ghost(st));
    out.append("}\n");
    proof {
        assert(out@ =~= old(out)@ + impl_block_text(
            arena@,
            st,
            name@,
            crate::order::variant_models(sv@),
        ));
    }
}

/// One destructor arm per variant: only an owning payload member is
/// explicitly dropped; the others hold no live resource.
pub open spec fn drop_arms(
    g: Seq<TypeModel>,
    name: Seq<char>,
    svm: Seq<crate::types::VariantModel>,
    from: int,
) -> Seq<char>
    decreases svm.len() - from,
{
    if !(0 <= from < svm.len()) {
        Seq::empty()
    } else {
        (if has_payload(svm[from]) && !payload_copy(g, svm[from]) {
            "            tag_"@ + name + "::"@ + svm[from].name
                + " => unsafe { core::mem::ManuallyDrop::drop(&mut self.variant."@
                + svm[from].name + ") },\n"@
        } else {
            "            tag_"@ + name + "::"@ + svm[from].name + " => {}\n"@
        }) + drop_arms(g, name, svm, from + 1)
    }
}

fn push_drop_arms(
    arena: &TypeArena,
    name: &str,
    sv: &Vec<crate::types::Variant>,
    from: usize,
    out: &mut String,
)
    requires
        graph_wf(arena@),
        variants_payloads_in(crate::order::variant_models(sv@), arena@.len() as int),
        from <= sv@.len(),
    ensures
        final(out)@ == old(out)@ + drop_arms(
            arena@,
            name@,
            crate::order::variant_models(sv@),
            from as int,
        ),
    decreases sv@.len() - from,
{
    let ghost svm = crate::order::variant_models(sv@);
    if from < sv.len() {
        proof {
            assert(svm[from as int] == sv@[from as int]@);
        }
        let owned = if sv[from].payloads.len() > 0 {
            let p = sv[from].payloads[0];
            proof {
                assert(svm[from as int].payloads[0] == p as int);
            }
            !crate::caps::caps_of(arena, p).copy
        } else {
            false
        };
        out.append("            tag_");
        out.append(name);
        out.append("::");
        out.append(sv[from].name.as_str());
        if owned {
            out.append(" => unsafe { core::mem::ManuallyDrop::drop(&mut self.variant.");
            out.append(sv[from].name.as_str());
            out.append(") },\n");
        } else {
            out.append(" => {}\n");
        }
        push_drop_arms(arena, name, sv, from + 1, out);
        proof {
            assert(out@ =~= old(out)@ + drop_arms(arena@, name@, svm, from as int));
        }
    }
}

/// The destruction of a tagged union never relies on an automatic
/// field-by-field teardown: it dispatches on the discriminant and touches
/// only the one live member.
pub open spec fn drop_block_text(
    g: Seq<TypeModel>,
    name: Seq<char>,
    svm: Seq<crate::types::VariantModel>,
) -> Seq<char> {
    "impl Drop for "@ + name + " {\n    fn drop(&mut self) {\n        match self.tag {\n"@
        + drop_arms(g, name, svm, 0) + "        }\n    }\n}\n"@
}

fn push_drop_block_text(
    arena: &TypeArena,
    name: &str,
    sv: &Vec<crate::types::Variant>,
    out: &mut String,
)
    requires
        graph_wf(arena@),
        variants_payloads_in(crate::order::variant_models(sv@), arena@.len() as int),
    ensures
        final(out)@ == old(out)@ + drop_block_text(
            arena@,
            name@,
            crate::order::variant_models(sv@),
        ),
{
    out.append("impl Drop for ");
    out.append(name);
    out.append(" {\n    fn drop(&mut self) {\n        match self.tag {\n");
    push_drop_arms(arena, name, sv, 0, out);
    out.append("        }\n    }\n}\n");
    proof {
        assert(out@ =~= old(out)@ + drop_block_text(
            arena@,
            name@,
            crate::order::variant_models(sv@),
        ));
    }
}

/// One equality arm per variant.
pub open spec fn eq_arms(
    name: Seq<char>,
    svm: Seq<crate::types::VariantModel>,
    from: int,
) -> Seq<char>
    decreases svm.len() - from,
{
    if !(0 <= from < svm.len()) {
        Seq::empty()
    } else {
        (if has_payload(svm[from]) {
            "                tag_"@ + name + "::"@ + svm[from].name + " => self.variant."@
                + svm[from].name + " == other.variant."@ + svm[from].name + ",\n"@
        } else {
            "                tag_"@ + name + "::"@ + svm[from].name + " => true,\n"@
        }) + eq_arms(name, svm, from + 1)
    }
}

fn push_eq_arms(name: &str, sv: &Vec<crate::types::Variant>, from: usize, out: &mut String)
    requires
        from <= sv@.len(),
    ensures
        final(out)@ == old(out)@ + eq_arms(
            name@,
            crate::order::variant_models(sv@),
            from as int,
        ),
    decreases sv@.len() - from,
{
    let ghost svm = crate::order::variant_models(sv@);
    if from < sv.len() {
        proof {
            assert(svm[from as int] == sv@[from as int]@);
        }
        out.append("                tag_");
        out.append(name);
        out.append("::");
        out.append(sv[from].name.as_str());
        if sv[from].payloads.len() > 0 {
            out.append(" => self.variant.");
            out.append(sv[from].name.as_str());
            out.append(" == other.variant.");
            out.append(sv[from].name.as_str());
            out.append(",\n");
        } else {
            out.append(" => true,\n");
        }
        push_eq_arms(name, sv, from + 1, out);
        proof {
            assert(out@ =~= old(out)@ + eq_arms(name@, svm, from as int));
        }
    }
}

/// Structural equality: discriminants first, then the one live member.
pub open spec fn partial_eq_block_text(
    name: Seq<char>,
    svm: Seq<crate::types::VariantModel>,
) -> Seq<char> {
    "impl PartialEq for "@ + name
        + " {\n    fn eq(&self, other: &Self) -> bool {\n        if self.tag != other.tag {\n            return false;\n        }\n\n        unsafe {\n            match self.tag {\n"@
        + eq_arms(name, svm, 0) + "            }\n        }\n    }\n}\n"@
}

fn push_partial_eq_block_text(name: &str, sv: &Vec<crate::types::Variant>, out: &mut String)
    ensures
        final(out)@ == old(out)@ + partial_eq_block_text(
            name@,
            crate::order::variant_models(sv@),
        ),
{
    out.append("impl PartialEq for ");
    out.append(name);
    out.append(
        " {\n    fn eq(&self, other: &Self) -> bool {\n        if self.tag != other.tag {\n            return false;\n        }\n\n        unsafe {\n            match self.tag {\n",
    );
    push_eq_arms(name, sv, 0, out);
    out.append("            }\n        }\n    }\n}\n");
    proof {
        assert(out@ =~= old(out)@ + partial_eq_block_text(
            name@,
            crate::order::variant_models(sv@),
        ));
    }
}

/// One partial-comparison arm per variant.
pub open spec fn pord_arms(
    name: Seq<char>,
    svm: Seq<crate::types::VariantModel>,
    from: int,
) -> Seq<char>
    decreases svm.len() - from,
{
    if !(0 <= from < svm.len()) {
        Seq::empty()
    } else {
        (if has_payload(svm[from]) {
            "                tag_"@ + name + "::"@ + svm[from].name + " => self.variant."@
                + svm[from].name + ".partial_cmp(&other.variant."@ + svm[from].name + "),\n"@
        } else {
            "                tag_"@ + name + "::"@ + svm[from].name
                + " => Some(core::cmp::Ordering::Equal),\n"@
        }) + pord_arms(name, svm, from + 1)
    }
}

fn push_pord_arms(name: &str, sv: &Vec<crate::types::Variant>, from: usize, out: &mut String)
    requires
        from <= sv@.len(),
    ensures
        final(out)@ == old(out)@ + pord_arms(
            name@,
            crate::order::variant_models(sv@),
            from as int,
        ),
    decreases sv@.len() - from,
{
    let ghost svm = crate::order::variant_models(sv@);
    if from < sv.len() {
        proof {
            assert(svm[from as int] == sv@[from as int]@);
        }
        out.append("                tag_");
        out.append(name);
        out.append("::");
        out.append(sv[from].name.as_str());
        if sv[from].payloads.len() > 0 {
            out.append(" => self.variant.");
            out.append(sv[from].name.as_str());
            out.append(".partial_cmp(&other.variant.");
            out.append(sv[from].name.as_str());
            out.append("),\n");
        } else {
            out.append(" => Some(core::cmp::Ordering::Equal),\n");
        }
        push_pord_arms(name, sv, from + 1, out);
        proof {
            assert(out@ =~= old(out)@ + pord_arms(name@, svm, from as int));
        }
    }
}

/// Partial ordering: discriminants first, then the one live member.
pub open spec fn partial_ord_block_text(
    name: Seq<char>,
    svm: Seq<crate::types::VariantModel>,
) -> Seq<char> {
    "impl PartialOrd for "@ + name
        + " {\n    fn partial_cmp(&self, other: &Self) -> Option<core::cmp::Ordering> {\n        match self.tag.partial_cmp(&other.tag) {\n            Some(core::cmp::Ordering::Equal) => {}\n            not_eq => return not_eq,\n        }\n\n        unsafe {\n            match self.tag {\n"@
        + pord_arms(name, svm, 0) + "            }\n        }\n    }\n}\n"@
}

fn push_partial_ord_block_text(name: &str, sv: &Vec<crate::types::Variant>, out: &mut String)
    ensures
        final(out)@ == old(out)@ + partial_ord_block_text(
            name@,
            crate::order::variant_models(sv@),
        ),
{
    out.append("impl PartialOrd for ");
    out.append(name);
    out.append(
        " {\n    fn partial_cmp(&self, other: &Self) -> Option<core::cmp::Ordering> {\n        match self.tag.partial_cmp(&other.tag) {\n            Some(core::cmp::Ordering::Equal) => {}\n            not_eq => return not_eq,\n        }\n\n        unsafe {\n            match self.tag {\n",
    );
    push_pord_arms(name, sv, 0, out);
    out.append("            }\n        }\n    }\n}\n");
    proof {
        assert(out@ =~= old(out)@ + partial_ord_block_text(
            name@,
            crate::order::variant_models(sv@),
        ));
    }
}

/// One total-comparison arm per variant.
pub open spec fn ord_arms(
    name: Seq<char>,
    svm: Seq<crate::types::VariantModel>,
    from: int,
) -> Seq<char>
    decreases svm.len() - from,
{
    if !(0 <= from < svm.len()) {
        Seq::empty()
    } else {
        (if has_payload(svm[from]) {
            "                tag_"@ + name + "::"@ + svm[from].name + " => self.variant."@
                + svm[from].name + ".cmp(&other.variant."@ + svm[from].name + "),\n"@
        } else {
            "                tag_"@ + name + "::"@ + svm[from].name
                + " => core::cmp::Ordering::Equal,\n"@
        }) + ord_arms(name, svm, from + 1)
    }
}

fn push_ord_arms(name: &str, sv: &Vec<crate::types::Variant>, from: usize, out: &mut String)
    requires
        from <= sv@.len(),
    ensures
        final(out)@ == old(out)@ + ord_arms(
            name@,
            crate::order::variant_models(sv@),
            from as int,
        ),
    decreases sv@.len() - from,
{
    let ghost svm = crate::order::variant_models(sv@);
    if from < sv.len() {
        proof {
            assert(svm[from as int] == sv@[from as int]@);
        }
        out.append("                tag_");
        out.append(name);
        out.append("::");
        out.append(sv[from].name.as_str());
        if sv[from].payloads.len() > 0 {
            out.append(" => self.variant.");
            out.append(sv[from].name.as_str());
            out.append(".cmp(&other.variant.");
            out.append(sv[from].name.as_str());
            out.append("),\n");
        } else {
            out.append(" => core::cmp::Ordering::Equal,\n");
        }
        push_ord_arms(name, sv, from + 1, out);
        proof {
            assert(out@ =~= old(out)@ + ord_arms(name@, svm, from as int));
        }
    }
}

/// Total ordering, emitted only when the capability analysis allows it.
pub open spec fn ord_block_text(
    name: Seq<char>,
    svm: Seq<crate::types::VariantModel>,
) -> Seq<char> {
    "impl Ord for "@ + name
        + " {\n    fn cmp(&self, other: &Self) -> core::cmp::Ordering {\n        match self.tag.cmp(&other.tag) {\n            core::cmp::Ordering::Equal => {}\n            not_eq => return not_eq,\n        }\n\n        unsafe {\n            match self.tag {\n"@
        + ord_arms(name, svm, 0) + "            }\n        }\n    }\n}\n"@
}

fn push_ord_block_text(name: &str, sv: &Vec<crate::types::Variant>, out: &mut String)
    ensures
        final(out)@ == old(out)@ + ord_block_text(name@, crate::order::variant_models(sv@)),
{
    out.append("impl Ord for ");
    out.append(name);
    out.append(
        " {\n    fn cmp(&self, other: &Self) -> core::cmp::Ordering {\n        match self.tag.cmp(&other.tag) {\n            core::cmp::Ordering::Equal => {}\n            not_eq => return not_eq,\n        }\n\n        unsafe {\n            match self.tag {\n",
    );
    push_ord_arms(name, sv, 0, out);
    out.append("            }\n        }\n    }\n}\n");
    proof {
        assert(out@ =~= old(out)@ + ord_block_text(name@, crate::order::variant_models(sv@)));
    }
}

/// One duplication arm per variant.
pub open spec fn clone_arms(
    name: Seq<char>,
    svm: Seq<crate::types::VariantModel>,
    from: int,
) -> Seq<char>
    decreases svm.len() - from,
{
    if !(0 <= from < svm.len()) {
        Seq::empty()
    } else {
        (if has_payload(svm[from]) {
            "            tag_"@ + name + "::"@ + svm[from].name
                + " => Self {\n                variant: union_"@ + name + " {\n                    "@
                + svm[from].name + ": unsafe { self.variant."@ + svm[from].name
                + ".clone() },\n                },\n                tag: tag_"@ + name + "::"@
                + svm[from].name + ",\n            },\n"@
        } else {
            "            tag_"@ + name + "::"@ + svm[from].name
                + " => Self {\n                variant: unsafe {\n                    core::mem::transmute::<\n                        core::mem::MaybeUninit<union_"@
                + name + ">,\n                        union_"@ + name
                + ",\n                    >(core::mem::MaybeUninit::uninit())\n                },\n                tag: tag_"@
                + name + "::"@ + svm[from].name + ",\n            },\n"@
        }) + clone_arms(name, svm, from + 1)
    }
}

#[verifier::rlimit(80)]
fn push_clone_arms(name: &str, sv: &Vec<crate::types::Variant>, from: usize, out: &mut String)
    requires
        from <= sv@.len(),
    ensures
        final(out)@ == old(out)@ + clone_arms(
            name@,
            crate::order::variant_models(sv@),
            from as int,
        ),
    decreases sv@.len() - from,
{
    let ghost svm = crate::order::variant_models(sv@);
    if from < sv.len() {
        proof {
            assert(svm[from as int] == sv@[from as int]@);
        }
        out.append("            tag_");
        out.append(name);
        out.append("::");
        out.append(sv[from].name.as_str());
        if sv[from].payloads.len() > 0 {
            out.append(" => Self {\n                variant: union_");
            out.append(name);
            out.append(" {\n                    ");
            out.append(sv[from].name.as_str());
            out.append(": unsafe { self.variant.");
            out.append(sv[from].name.as_str());
            out.append(".clone() },\n                },\n                tag: tag_");
            out.append(name);
            out.append("::");
            out.append(sv[from].name.as_str());
            out.append(",\n            },\n");
        } else {
            out.append(
                " => Self {\n                variant: unsafe {\n                    core::mem::transmute::<\n                        core::mem::MaybeUninit<union_",
            );
            out.append(name);
            out.append(">,\n                        union_");
            out.append(name);
            out.append(
                ",\n                    >(core::mem::MaybeUninit::uninit())\n                },\n                tag: tag_",
            );
            out.append(name);
            out.append("::");
            out.append(sv[from].name.as_str());
            out.append(",\n            },\n");
        }
        push_clone_arms(name, sv, from + 1, out);
        proof {
            assert(out@ =~= old(out)@ + clone_arms(name@, svm, from as int));
        }
    }
}

/// Duplication dispatches on the discriminant and clones only the live
/// member.
pub open spec fn clone_block_text(
    name: Seq<char>,
    svm: Seq<crate::types::VariantModel>,
) -> Seq<char> {
    "impl Clone for "@ + name + " {\n    fn clone(&self) -> Self {\n        match self.tag {\n"@
        + clone_arms(name, svm, 0) + "        }\n    }\n}\n"@
}

fn push_clone_block_text(name: &str, sv: &Vec<crate::types::Variant>, out: &mut String)
    ensures
        final(out)@ == old(out)@ + clone_block_text(name@, crate::order::variant_models(sv@)),
{
    out.append("impl Clone for ");
    out.append(name);
    out.append(" {\n    fn clone(&self) -> Self {\n        match self.tag {\n");
    push_clone_arms(name, sv, 0, out);
    out.append("        }\n    }\n}\n");
    proof {
        assert(out@ =~= old(out)@ + clone_block_text(
            name@,
            crate::order::variant_models(sv@),
        ));
    }
}

/// One debug-rendering arm per variant.
pub open spec fn debug_arms(
    name: Seq<char>,
    svm: Seq<crate::types::VariantModel>,
    from: int,
) -> Seq<char>
    decreases svm.len() - from,
{
    if !(0 <= from < svm.len()) {
        Seq::empty()
    } else {
        (if has_payload(svm[from]) {
            "                tag_"@ + name + "::"@ + svm[from].name + " => f.debug_tuple(\""@
                + svm[from].name + "\").field(&self.variant."@ + svm[from].name
                + ").finish(),\n"@
        } else {
            "                tag_"@ + name + "::"@ + svm[from].name + " => f.write_str(\""@
                + svm[from].name + "\"),\n"@
        }) + debug_arms(name, svm, from + 1)
    }
}

fn push_debug_arms(name: &str, sv: &Vec<crate::types::Variant>, from: usize, out: &mut String)
    requires
        from <= sv@.len(),
    ensures
        final(out)@ == old(out)@ + debug_arms(
            name@,
            crate::order::variant_models(sv@),
            from as int,
        ),
    decreases sv@.len() - from,
{
    let ghost svm = crate::order::variant_models(sv@);
    if from < sv.len() {
        proof {
            assert(svm[from as int] == sv@[from as int]@);
        }
        out.append("                tag_");
        out.append(name);
        out.append("::");
        out.append(sv[from].name.as_str());
        if sv[from].payloads.len() > 0 {
            out.append(" => f.debug_tuple(\"");
            out.append(sv[from].name.as_str());
            out.append("\").field(&self.variant.");
            out.append(sv[from].name.as_str());
            out.append(").finish(),\n");
        } else {
            out.append(" => f.write_str(\"");
            out.append(sv[from].name.as_str());
            out.append("\"),\n");
        }
        push_debug_arms(name, sv, from + 1, out);
        proof {
            assert(out@ =~= old(out)@ + debug_arms(name@, svm, from as int));
        }
    }
}

/// Textual debug rendering, dispatching on the discriminant.
pub open spec fn debug_block_text(
    name: Seq<char>,
    svm: Seq<crate::types::VariantModel>,
) -> Seq<char> {
    "impl core::fmt::Debug for "@ + name
        + " {\n    fn fmt(&self, f: &mut core::fmt::Formatter<'_>) -> core::fmt::Result {\n        f.write_str(\""@
        + name + "::\")?;\n\n        unsafe {\n            match self.tag {\n"@ + debug_arms(
        name,
        svm,
        0,
    ) + "            }\n        }\n    }\n}\n"@
}

fn push_debug_block_text(name: &str, sv: &Vec<crate::types::Variant>, out: &mut String)
    ensures
        final(out)@ == old(out)@ + debug_block_text(name@, crate::order::variant_models(sv@)),
{
    out.append("impl core::fmt::Debug for ");
    out.append(name);
    out.append(
        " {\n    fn fmt(&self, f: &mut core::fmt::Formatter<'_>) -> core::fmt::Result {\n        f.write_str(\"",
    );
    out.append(name);
    out.append("::\")?;\n\n        unsafe {\n            match self.tag {\n");
    push_debug_arms(name, sv, 0, out);
    out.append("            }\n        }\n    }\n}\n");
    proof {
        assert(out@ =~= old(out)@ + debug_block_text(
            name@,
            crate::order::variant_models(sv@),
        ));
    }
}

/// The declarations of a tagged union: the discriminant enumeration, the
/// payload union, the outer struct, and the inherent operations.
pub open spec fn tagged_front(
    g: Seq<TypeModel>,
    st: NameState,
    name: Seq<char>,
    svm: Seq<crate::types::VariantModel>,
) -> Seq<char> {
    enum_text(
        "tag_"@ + name,
        Caps { copy: true, default: false, total_ord: true },
        svm,
    ) + "\n"@ + union_block_text(g, st, name, svm) + "\n"@ + struct_block_text(name) + "\n"@
        + impl_block_text(g, st, name, svm) + "\n"@
}

/// The total-equality marker, emitted only when allowed.
pub open spec fn eq_opt_text(name: Seq<char>, caps: Caps) -> Seq<char> {
    if caps.total_ord {
        "impl Eq for "@ + name + " {}\n"@ + "\n"@
    } else {
        Seq::empty()
    }
}

fn push_eq_opt_text(name: &str, caps: &Caps, out: &mut String)
    ensures
        final(out)@ == old(out)@ + eq_opt_text(name@, *caps),
{
    if caps.total_ord {
        out.append("impl Eq for ");
        out.append(name);
        out.append(" {}\n");
        out.append("\n");
        proof {
            assert(out@ =~= old(out)@ + eq_opt_text(name@, *caps));
        }
    } else {
        proof {
            assert(out@ =~= old(out)@ + eq_opt_text(name@, *caps));
        }
    }
}

/// The total ordering, emitted only when allowed.
pub open spec fn ord_opt_text(
    name: Seq<char>,
    svm: Seq<crate::types::VariantModel>,
    caps: Caps,
) -> Seq<char> {
    if caps.total_ord {
        ord_block_text(name, svm) + "\n"@
    } else {
        Seq::empty()
    }
}

fn push_ord_opt_text(name: &str, sv: &Vec<crate::types::Variant>, caps: &Caps, out: &mut String)
    ensures
        final(out)@ == old(out)@ + ord_opt_text(
            name@,
            crate::order::variant_models(sv@),
            *caps,
        ),
{
    if caps.total_ord {
        push_ord_block_text(name, sv, out);
        out.append("\n");
        proof {
            assert(out@ =~= old(out)@ + ord_opt_text(
                name@,
                crate::order::variant_models(sv@),
                *caps,
            ));
        }
    } else {
        proof {
            assert(out@ =~= old(out)@ + ord_opt_text(
                name@,
                crate::order::variant_models(sv@),
                *caps,
            ));
        }
    }
}

/// The manual trait implementations of a tagged union, each dispatching
/// on the discriminant before touching a payload; the total comparisons
/// appear only when the capability analysis allows them.
pub open spec fn tagged_back(
    g: Seq<TypeModel>,
    name: Seq<char>,
    svm: Seq<crate::types::VariantModel>,
    caps: Caps,
) -> Seq<char> {
    drop_block_text(g, name, svm) + "\n"@ + partial_eq_block_text(name, svm) + "\n"@ + eq_opt_text(
        name,
        caps,
    ) + partial_ord_block_text(name, svm) + "\n"@ + ord_opt_text(name, svm, caps)
        + clone_block_text(name, svm) + "\n"@ + debug_block_text(name, svm) + "\n"@
}

/// The whole emission of a tagged union with an explicit discriminant
/// field.
pub open spec fn tagged_text(
    g: Seq<TypeModel>,
    st: NameState,
    name: Seq<char>,
    svm: Seq<crate::types::VariantModel>,
    caps: Caps,
) -> Seq<char> {
    tagged_front(g, st, name, svm) + tagged_back(g, name, svm, caps)
}

#[verifier::rlimit(60)]
fn push_tagged_front(
    arena: &TypeArena,
    table: &NameTable,
    name: &str,
    sv: &Vec<crate::types::Variant>,
    out: &mut String,
    Ghost(st): Ghost<NameState>,
)
    requires
        graph_wf(arena@),
        table_models(*table, arena@.len() as int, st),
        variants_payloads_in(crate::order::variant_models(sv@), arena@.len() as int),
    ensures
        final(out)@ == old(out)@ + tagged_front(
            arena@,
            st,
            name@,
            crate::order::variant_models(sv@),
        ),
{
    let mut tag_name = String::new();
    tag_name.append("tag_");
    tag_name.append(name);
    proof {
        assert(tag_name@ == "tag_"@ + name@);
    }
    let tc = Caps { copy: true, default: false, total_ord: true };
    push_enum_text(tag_name.as_str(), &tc, sv, out);
    out.append("\n");
    push_union_block_text(arena, table, name, sv, out, Ghost(st));
    out.append("\n");
    push_struct_block_text(name, out);
    out.append("\n");
    push_impl_block_text(arena, table, name, sv, out, Ghost(st));
    out.append("\n");
    proof {
        assert(out@ =~= old(out)@ + tagged_front(
            arena@,
            st,
            name@,
            crate::order::variant_models(sv@),
        ));
    }
}

#[verifier::rlimit(60)]
fn push_tagged_back(
    arena: &TypeArena,
    name: &str,
    sv: &Vec<crate::types::Variant>,
    caps: &Caps,
    out: &mut String,
)
    requires
        graph_wf(arena@),
        variants_payloads_in(crate::order::variant_models(sv@), arena@.len() as int),
    ensures
        final(out)@ == old(out)@ + tagged_back(
            arena@,
            name@,
            crate::order::variant_models(sv@),
            *caps,
        ),
{
    push_drop_block_text(arena, name, sv, out);
    out.append("\n");
    push_partial_eq_block_text(name, sv, out);
    out.append("\n");
    push_eq_opt_text(name, caps, out);
    push_partial_ord_block_text(name, sv, out);
    out.append("\n");
    push_ord_opt_text(name, sv, caps, out);
    push_clone_block_text(name, sv, out);
    out.append("\n");
    push_debug_block_text(name, sv, out);
    out.append("\n");
    proof {
        assert(out@ =~= old(out)@ + tagged_back(
            arena@,
            name@,
            crate::order::variant_models(sv@),
            *caps,
        ));
    }
}

fn push_tagged_text(
    arena: &TypeArena,
    table: &NameTable,
    name: &str,
    sv: &Vec<crate::types::Variant>,
    caps: &Caps,
    out: &mut String,
    Ghost(st): Ghost<NameState>,
)
    requires
        graph_wf(arena@),
        table_models(*table, arena@.len() as int, st),
        variants_payloads_in(crate::order::variant_models(sv@), arena@.len() as int),
    ensures
        final(out)@ == old(out)@ + tagged_text(
            arena@,
            st,
            name@,
            crate::order::variant_models(sv@),
            *caps,
        ),
{
    push_tagged_front(arena, table, name, sv, out, Ghost(st));
    push_tagged_back(arena, name, sv, caps, out);
    proof {
        assert(out@ =~= old(out)@ + tagged_text(
            arena@,
            st,
            name@,
            crate::order::variant_models(sv@),
            *caps,
        ));
    }
}

/// The first payload type that is not a self-reference, or the arena
/// length when all of them are.
pub open spec fn first_non_self(g: Seq<TypeModel>, tys: Seq<int>, from: int) -> int
    decreases tys.len() - from,
{
    if !(0 <= from < tys.len()) {
        g.len() as int
    } else if !crate::types::is_self_ref(g, tys[from]) {
        tys[from]
    } else {
        first_non_self(g, tys, from + 1)
    }
}

fn first_non_self_exec(arena: &TypeArena, tys: &Vec<usize>, from: usize) -> (r: usize)
    requires
        from <= tys@.len(),
    ensures
        r as int == first_non_self(
            arena@,
            tys@.map_values(|p: usize| p as int),
            from as int,
        ),
    decreases tys@.len() - from,
{
    let ghost tm = tys@.map_values(|p: usize| p as int);
    if from >= tys.len() {
        arena.len()
    } else {
        let p = tys[from];
        proof {
            assert(tm[from as int] == p as int);
        }
        let self_ref = if p < arena.len() {
            match arena.resolve(p) {
                StructuralType::SelfReference => true,
                _ => false,
            }
        } else {
            false
        };
        proof {
            assert(self_ref == crate::types::is_self_ref(arena@, p as int));
        }
        if !self_ref {
            p
        } else {
            first_non_self_exec(arena, tys, from + 1)
        }
    }
}

/// The index of the payload-carrying variant among the two variants of a
/// null-discriminant union; the other one is the terminal variant.
pub open spec fn rec_payload_idx(svm: Seq<crate::types::VariantModel>) -> int {
    if svm.len() >= 1 && svm[0].payloads.len() > 0 {
        0
    } else {
        1
    }
}

/// The heap payload type of a null-discriminant union: the one
/// non-recursive payload of its payload-carrying variant.
pub open spec fn rec_payload_ty(g: Seq<TypeModel>, svm: Seq<crate::types::VariantModel>) -> int {
    first_non_self(g, svm[rec_payload_idx(svm)].payloads, 0)
}

/// The pointer-holding struct: the whole representation is one owning
/// pointer, with no discriminant field. Derived comparisons would compare
/// addresses rather than contents, so the struct carries no derives at
/// all; duplication and destruction are emitted by hand below.
pub open spec fn rec_struct_text(name: Seq<char>, p: Seq<char>) -> Seq<char> {
    "#[repr(C)]\npub struct "@ + name + " {\n    pointer: *mut core::mem::ManuallyDrop<"@ + p
        + ">,\n}\n"@
}

fn push_rec_struct_text(name: &str, p: &str, out: &mut String)
    ensures
        final(out)@ == old(out)@ + rec_struct_text(name@, p@),
{
    out.append("#[repr(C)]\npub struct ");
    out.append(name);
    out.append(" {\n    pointer: *mut core::mem::ManuallyDrop<");
    out.append(p);
    out.append(">,\n}\n");
    proof {
        assert(out@ =~= old(out)@ + rec_struct_text(name@, p@));
    }
}

/// The discriminant of a null-discriminant union is computed, not
/// stored: it is pointer nullity.
pub open spec fn rec_tag_fn_text(name: Seq<char>, ctag: Seq<char>, etag: Seq<char>) -> Seq<char> {
    "    pub fn tag(&self) -> tag_"@ + name
        + " {\n        if self.pointer.is_null() {\n            tag_"@ + name + "::"@ + etag
        + "\n        } else {\n            tag_"@ + name + "::"@ + ctag + "\n        }\n    }\n"@
}

fn push_rec_tag_fn_text(name: &str, ctag: &str, etag: &str, out: &mut String)
    ensures
        final(out)@ == old(out)@ + rec_tag_fn_text(name@, ctag@, etag@),
{
    out.append("    pub fn tag(&self) -> tag_");
    out.append(name);
    out.append(" {\n        if self.pointer.is_null() {\n            tag_");
    out.append(name);
    out.append("::");
    out.append(etag);
    out.append("\n        } else {\n            tag_");
    out.append(name);
    out.append("::");
    out.append(ctag);
    out.append("\n        }\n    }\n");
    proof {
        assert(out@ =~= old(out)@ + rec_tag_fn_text(name@, ctag@, etag@));
    }
}

/// The constructor, consuming accessor and borrowing accessor of the
/// payload-carrying variant: construction allocates the heap payload
/// block through the externally supplied capability, the consuming
/// accessor releases it.
pub open spec fn rec_payload_methods(
    name: Seq<char>,
    tag: Seq<char>,
    p: Seq<char>,
) -> Seq<char> {
    "\n    /// Construct a tag named "@ + tag + ", with the appropriate payload\n    pub fn "@
        + tag + "(payload: "@ + p + ") -> Self {\n        let size = core::mem::size_of::<"@ + p
        + ">();\n        let align = core::mem::align_of::<"@ + p
        + ">();\n\n        unsafe {\n            let pointer =\n                crate::roc_alloc(size, align as u32) as *mut core::mem::ManuallyDrop<"@
        + p
        + ">;\n\n            *pointer = core::mem::ManuallyDrop::new(payload);\n\n            Self { pointer }\n        }\n    }\n"@
        + "\n    /// Unsafely assume the given "@ + name + " has a .tag() of "@ + tag
        + " and convert it to "@ + tag
        + "'s payload.\n    /// (always examine .tag() first to make sure this is the correct variant!)\n    pub unsafe fn into_"@
        + tag + "(self) -> "@ + p
        + " {\n        let payload = core::mem::ManuallyDrop::take(&mut *self.pointer);\n        let align = core::mem::align_of::<"@
        + p
        + ">() as u32;\n\n        roc_dealloc(self.pointer as *mut core::ffi::c_void, align);\n\n        payload\n    }\n"@
        + "\n    /// Unsafely assume the given "@ + name + " has a .tag() of "@ + tag
        + " and return its payload.\n    /// (always examine .tag() first to make sure this is the correct variant!)\n    pub unsafe fn as_"@
        + tag + "(&self) -> &"@ + p + " {\n        &*self.pointer\n    }\n"@
}

#[verifier::rlimit(60)]
fn push_rec_payload_methods(name: &str, tag: &str, p: &str, out: &mut String)
    ensures
        final(out)@ == old(out)@ + rec_payload_methods(name@, tag@, p@),
{
    out.append("\n    /// Construct a tag named ");
    out.append(tag);
    out.append(", with the appropriate payload\n    pub fn ");
    out.append(tag);
    out.append("(payload: ");
    out.append(p);
    out.append(") -> Self {\n        let size = core::mem::size_of::<");
    out.append(p);
    out.append(">();\n        let align = core::mem::align_of::<");
    out.append(p);
    out.append(
        ">();\n\n        unsafe {\n            let pointer =\n                crate::roc_alloc(size, align as u32) as *mut core::mem::ManuallyDrop<",
    );
    out.append(p);
    out.append(
        ">;\n\n            *pointer = core::mem::ManuallyDrop::new(payload);\n\n            Self { pointer }\n        }\n    }\n",
    );
    out.append("\n    /// Unsafely assume the given ");
    out.append(name);
    out.append(" has a .tag() of ");
    out.append(tag);
    out.append(" and convert it to ");
    out.append(tag);
    out.append(
        "'s payload.\n    /// (always examine .tag() first to make sure this is the correct variant!)\n    pub unsafe fn into_",
    );
    out.append(tag);
    out.append("(self) -> ");
    out.append(p);
    out.append(
        " {\n        let payload = core::mem::ManuallyDrop::take(&mut *self.pointer);\n        let align = core::mem::align_of::<",
    );
    out.append(p);
    out.append(
        ">() as u32;\n\n        roc_dealloc(self.pointer as *mut core::ffi::c_void, align);\n\n        payload\n    }\n",
    );
    out.append("\n    /// Unsafely assume the given ");
    out.append(name);
    out.append(" has a .tag() of ");
    out.append(tag);
    out.append(
        " and return its payload.\n    /// (always examine .tag() first to make sure this is the correct variant!)\n    pub unsafe fn as_",
    );
    out.append(tag);
    out.append("(&self) -> &");
    out.append(p);
    out.append(" {\n        &*self.pointer\n    }\n");
    proof {
        assert(out@ =~= old(out)@ + rec_payload_methods(name@, tag@, p@));
    }
}

/// The constructor and placeholder accessors of the terminal variant: the
/// null pointer is the whole value.
pub open spec fn rec_empty_methods(tag: Seq<char>) -> Seq<char> {
    "\n    /// Construct a tag named "@ + tag
        + "\n    pub fn "@ + tag
        + "() -> Self {\n        Self {\n            pointer: core::ptr::null_mut(),\n        }\n    }\n"@
        + "\n    /// Other `into_` methods return a payload, but since the "@ + tag
        + " tag\n    /// has no payload, this does nothing and is only here for completeness.\n    pub fn into_"@
        + tag + "(self) -> () {\n        ()\n    }\n"@
        + "\n    /// Other `as` methods return a payload, but since the "@ + tag
        + " tag\n    /// has no payload, this does nothing and is only here for completeness.\n    pub unsafe fn as_"@
        + tag + "(&self) -> () {\n        ()\n    }\n"@
}

fn push_rec_empty_methods(tag: &str, out: &mut String)
    ensures
        final(out)@ == old(out)@ + rec_empty_methods(tag@),
{
    out.append("\n    /// Construct a tag named ");
    out.append(tag);
    out.append("\n    pub fn ");
    out.append(tag);
    out.append(
        "() -> Self {\n        Self {\n            pointer: core::ptr::null_mut(),\n        }\n    }\n",
    );
    out.append("\n    /// Other `into_` methods return a payload, but since the ");
    out.append(tag);
    out.append(
        " tag\n    /// has no payload, this does nothing and is only here for completeness.\n    pub fn into_",
    );
    out.append(tag);
    out.append("(self) -> () {\n        ()\n    }\n");
    out.append("\n    /// Other `as` methods return a payload, but since the ");
    out.append(tag);
    out.append(
        " tag\n    /// has no payload, this does nothing and is only here for completeness.\n    pub unsafe fn as_",
    );
    out.append(tag);
    out.append("(&self) -> () {\n        ()\n    }\n");
    proof {
        assert(out@ =~= old(out)@ + rec_empty_methods(tag@));
    }
}

/// The methods of both variants, in alphabetical order.
pub open spec fn rec_methods_lines(
    name: Seq<char>,
    svm: Seq<crate::types::VariantModel>,
    p: Seq<char>,
    from: int,
) -> Seq<char>
    decreases svm.len() - from,
{
    if !(0 <= from < svm.len()) {
        Seq::empty()
    } else {
        (if has_payload(svm[from]) {
            rec_payload_methods(name, svm[from].name, p)
        } else {
            rec_empty_methods(svm[from].name)
        }) + rec_methods_lines(name, svm, p, from + 1)
    }
}

fn push_rec_methods_lines(
    name: &str,
    sv: &Vec<crate::types::Variant>,
    p: &str,
    from: usize,
    out: &mut String,
)
    requires
        from <= sv@.len(),
    ensures
        final(out)@ == old(out)@ + rec_methods_lines(
            name@,
            crate::order::variant_models(sv@),
            p@,
            from as int,
        ),
    decreases sv@.len() - from,
{
    let ghost svm = crate::order::variant_models(sv@);
    if from < sv.len() {
        proof {
            assert(svm[from as int] == sv@[from as int]@);
        }
        if sv[from].payloads.len() > 0 {
            push_rec_payload_methods(name, sv[from].name.as_str(), p, out);
        } else {
            push_rec_empty_methods(sv[from].name.as_str(), out);
        }
        push_rec_methods_lines(name, sv, p, from + 1, out);
        proof {
            assert(out@ =~= old(out)@ + rec_methods_lines(name@, svm, p@, from as int));
        }
    }
}

/// The inherent impl of a null-discriminant union.
pub open spec fn rec_impl_text(
    name: Seq<char>,
    svm: Seq<crate::types::VariantModel>,
    p: Seq<char>,
    ctag: Seq<char>,
    etag: Seq<char>,
) -> Seq<char> {
    "impl "@ + name + " {\n"@ + rec_tag_fn_text(name, ctag, etag) + rec_methods_lines(
        name,
        svm,
        p,
        0,
    ) + "}\n"@
}

fn push_rec_impl_text(
    name: &str,
    sv: &Vec<crate::types::Variant>,
    p: &str,
    ctag: &str,
    etag: &str,
    out: &mut String,
)
    ensures
        final(out)@ == old(out)@ + rec_impl_text(
            name@,
            crate::order::variant_models(sv@),
            p@,
            ctag@,
            etag@,
        ),
{
    out.append("impl ");
    out.append(name);
    out.append(" {\n");
    push_rec_tag_fn_text(name, ctag, etag, out);
    push_rec_methods_lines(name, sv, p, 0, out);
    out.append("}\n");
    proof {
        assert(out@ =~= old(out)@ + rec_impl_text(
            name@,
            crate::order::variant_models(sv@),
            p@,
            ctag@,
            etag@,
        ));
    }
}

/// Destruction: a null pointer owns nothing; a non-null pointer owns the
/// payload block, which is released through the external capability.
pub open spec fn rec_drop_text(name: Seq<char>, p: Seq<char>) -> Seq<char> {
    "impl Drop for "@ + name
        + " {\n    fn drop(&mut self) {\n        if !self.pointer.is_null() {\n            let payload = unsafe { &*self.pointer };\n            let align = core::mem::align_of::<"@
        + p
        + ">() as u32;\n\n            unsafe {\n                roc_dealloc(self.pointer as *mut core::ffi::c_void, align);\n            }\n\n            drop(payload);\n        }\n    }\n}\n"@
}

fn push_rec_drop_text(name: &str, p: &str, out: &mut String)
    ensures
        final(out)@ == old(out)@ + rec_drop_text(name@, p@),
{
    out.append("impl Drop for ");
    out.append(name);
    out.append(
        " {\n    fn drop(&mut self) {\n        if !self.pointer.is_null() {\n            let payload = unsafe { &*self.pointer };\n            let align = core::mem::align_of::<",
    );
    out.append(p);
    out.append(
        ">() as u32;\n\n            unsafe {\n                roc_dealloc(self.pointer as *mut core::ffi::c_void, align);\n            }\n\n            drop(payload);\n        }\n    }\n}\n",
    );
    proof {
        assert(out@ =~= old(out)@ + rec_drop_text(name@, p@));
    }
}

/// One duplication arm per variant: duplication is deep, through the
/// constructor, never a copy of the pointer.
pub open spec fn rec_clone_arms(
    name: Seq<char>,
    svm: Seq<crate::types::VariantModel>,
    from: int,
) -> Seq<char>
    decreases svm.len() - from,
{
    if !(0 <= from < svm.len()) {
        Seq::empty()
    } else {
        (if has_payload(svm[from]) {
            "            tag_"@ + name + "::"@ + svm[from].name + " => unsafe { Self::"@
                + svm[from].name
                + "(core::mem::ManuallyDrop::into_inner((*self.pointer).clone())) },\n"@
        } else {
            "            tag_"@ + name + "::"@ + svm[from].name + " => Self::"@ + svm[from].name
                + "(),\n"@
        }) + rec_clone_arms(name, svm, from + 1)
    }
}

fn push_rec_clone_arms(
    name: &str,
    sv: &Vec<crate::types::Variant>,
    from: usize,
    out: &mut String,
)
    requires
        from <= sv@.len(),
    ensures
        final(out)@ == old(out)@ + rec_clone_arms(
            name@,
            crate::order::variant_models(sv@),
            from as int,
        ),
    decreases sv@.len() - from,
{
    let ghost svm = crate::order::variant_models(sv@);
    if from < sv.len() {
        proof {
            assert(svm[from as int] == sv@[from as int]@);
        }
        out.append("            tag_");
        out.append(name);
        out.append("::");
        out.append(sv[from].name.as_str());
        if sv[from].payloads.len() > 0 {
            out.append(" => unsafe { Self::");
            out.append(sv[from].name.as_str());
            out.append("(core::mem::ManuallyDrop::into_inner((*self.pointer).clone())) },\n");
        } else {
            out.append(" => Self::");
            out.append(sv[from].name.as_str());
            out.append("(),\n");
        }
        push_rec_clone_arms(name, sv, from + 1, out);
        proof {
            assert(out@ =~= old(out)@ + rec_clone_arms(name@, svm, from as int));
        }
    }
}

/// Deep duplication of a null-discriminant union: dispatch on the
/// computed discriminant, then rebuild through the constructors.
pub open spec fn rec_clone_text(
    name: Seq<char>,
    svm: Seq<crate::types::VariantModel>,
) -> Seq<char> {
    "impl Clone for "@ + name
        + " {\n    fn clone(&self) -> Self {\n        match self.tag() {\n"@ + rec_clone_arms(
        name,
        svm,
        0,
    ) + "        }\n    }\n}\n"@
}

fn push_rec_clone_text(name: &str, sv: &Vec<crate::types::Variant>, out: &mut String)
    ensures
        final(out)@ == old(out)@ + rec_clone_text(name@, crate::order::variant_models(sv@)),
{
    out.append("impl Clone for ");
    out.append(name);
    out.append(" {\n    fn clone(&self) -> Self {\n        match self.tag() {\n");
    push_rec_clone_arms(name, sv, 0, out);
    out.append("        }\n    }\n}\n");
    proof {
        assert(out@ =~= old(out)@ + rec_clone_text(
            name@,
            crate::order::variant_models(sv@),
        ));
    }
}

/// One debug-rendering arm per variant.
pub open spec fn rec_debug_arms(
    name: Seq<char>,
    svm: Seq<crate::types::VariantModel>,
    from: int,
) -> Seq<char>
    decreases svm.len() - from,
{
    if !(0 <= from < svm.len()) {
        Seq::empty()
    } else {
        (if has_payload(svm[from]) {
            "            tag_"@ + name + "::"@ + svm[from].name
                + " => unsafe { f.debug_tuple(\""@ + svm[from].name
                + "\").field(&*self.pointer).finish() },\n"@
        } else {
            "            tag_"@ + name + "::"@ + svm[from].name + " => f.write_str(\""@
                + svm[from].name + "\"),\n"@
        }) + rec_debug_arms(name, svm, from + 1)
    }
}

fn push_rec_debug_arms(
    name: &str,
    sv: &Vec<crate::types::Variant>,
    from: usize,
    out: &mut String,
)
    requires
        from <= sv@.len(),
    ensures
        final(out)@ == old(out)@ + rec_debug_arms(
            name@,
            crate::order::variant_models(sv@),
            from as int,
        ),
    decreases sv@.len() - from,
{
    let ghost svm = crate::order::variant_models(sv@);
    if from < sv.len() {
        proof {
            assert(svm[from as int] == sv@[from as int]@);
        }
        out.append("            tag_");
        out.append(name);
        out.append("::");
        out.append(sv[from].name.as_str());
        if sv[from].payloads.len() > 0 {
            out.append(" => unsafe { f.debug_tuple(\"");
            out.append(sv[from].name.as_str());
            out.append("\").field(&*self.pointer).finish() },\n");
        } else {
            out.append(" => f.write_str(\"");
            out.append(sv[from].name.as_str());
            out.append("\"),\n");
        }
        push_rec_debug_arms(name, sv, from + 1, out);
        proof {
            assert(out@ =~= old(out)@ + rec_debug_arms(name@, svm, from as int));
        }
    }
}

/// Textual debug rendering of a null-discriminant union.
pub open spec fn rec_debug_text(
    name: Seq<char>,
    svm: Seq<crate::types::VariantModel>,
) -> Seq<char> {
    "impl core::fmt::Debug for "@ + name
        + " {\n    fn fmt(&self, f: &mut core::fmt::Formatter<'_>) -> core::fmt::Result {\n        f.write_str(\""@
        + name + "::\")?;\n\n        match self.tag() {\n"@ + rec_debug_arms(name, svm, 0)
        + "        }\n    }\n}\n"@
}

fn push_rec_debug_text(name: &str, sv: &Vec<crate::types::Variant>, out: &mut String)
    ensures
        final(out)@ == old(out)@ + rec_debug_text(name@, crate::order::variant_models(sv@)),
{
    out.append("impl core::fmt::Debug for ");
    out.append(name);
    out.append(
        " {\n    fn fmt(&self, f: &mut core::fmt::Formatter<'_>) -> core::fmt::Result {\n        f.write_str(\"",
    );
    out.append(name);
    out.append("::\")?;\n\n        match self.tag() {\n");
    push_rec_debug_arms(name, sv, 0, out);
    out.append("        }\n    }\n}\n");
    proof {
        assert(out@ =~= old(out)@ + rec_debug_text(
            name@,
            crate::order::variant_models(sv@),
        ));
    }
}

/// The declarations of a null-discriminant union: the discriminant
/// enumeration, the pointer struct and the inherent operations.
pub open spec fn rec_front_text(
    name: Seq<char>,
    svm: Seq<crate::types::VariantModel>,
    p: Seq<char>,
    ctag: Seq<char>,
    etag: Seq<char>,
) -> Seq<char> {
    enum_text(
        "tag_"@ + name,
        Caps { copy: true, default: false, total_ord: true },
        svm,
    ) + "\n"@ + rec_struct_text(name, p) + "\n"@ + rec_impl_text(name, svm, p, ctag, etag)
        + "\n"@
}

/// The hand-written operations of a null-discriminant union.
pub open spec fn rec_back_text(
    name: Seq<char>,
    svm: Seq<crate::types::VariantModel>,
    p: Seq<char>,
) -> Seq<char> {
    rec_drop_text(name, p) + "\n"@ + rec_clone_text(name, svm) + "\n"@ + rec_debug_text(
        name,
        svm,
    ) + "\n"@
}

/// The whole emission of a self-recursive union in null-discriminant
/// form: the discriminant enumeration, the pointer struct, the inherent
/// operations, and hand-written destruction, duplication and debug
/// rendering. Comparison and hashing are withheld: over a pointer they
/// would compare addresses, not contents.
pub open spec fn recursive_text(
    g: Seq<TypeModel>,
    st: NameState,
    name: Seq<char>,
    svm: Seq<crate::types::VariantModel>,
) -> Seq<char> {
    let p = type_ref(g, st, rec_payload_ty(g, svm));
    let ctag = svm[rec_payload_idx(svm)].name;
    let etag = svm[1 - rec_payload_idx(svm)].name;
    rec_front_text(name, svm, p, ctag, etag) + rec_back_text(name, svm, p)
}

#[verifier::rlimit(60)]
fn push_rec_front_text(
    name: &str,
    sv: &Vec<crate::types::Variant>,
    p: &str,
    ctag: &str,
    etag: &str,
    out: &mut String,
)
    ensures
        final(out)@ == old(out)@ + rec_front_text(
            name@,
            crate::order::variant_models(sv@),
            p@,
            ctag@,
            etag@,
        ),
{
    let mut tag_name = String::new();
    tag_name.append("tag_");
    tag_name.append(name);
    proof {
        assert(tag_name@ == "tag_"@ + name@);
    }
    let tc = Caps { copy: true, default: false, total_ord: true };
    push_enum_text(tag_name.as_str(), &tc, sv, out);
    out.append("\n");
    push_rec_struct_text(name, p, out);
    out.append("\n");
    push_rec_impl_text(name, sv, p, ctag, etag, out);
    out.append("\n");
    proof {
        assert(out@ =~= old(out)@ + rec_front_text(
            name@,
            crate::order::variant_models(sv@),
            p@,
            ctag@,
            etag@,
        ));
    }
}

#[verifier::rlimit(60)]
fn push_rec_back_text(name: &str, sv: &Vec<crate::types::Variant>, p: &str, out: &mut String)
    ensures
        final(out)@ == old(out)@ + rec_back_text(
            name@,
            crate::order::variant_models(sv@),
            p@,
        ),
{
    push_rec_drop_text(name, p, out);
    out.append("\n");
    push_rec_clone_text(name, sv, out);
    out.append("\n");
    push_rec_debug_text(name, sv, out);
    out.append("\n");
    proof {
        assert(out@ =~= old(out)@ + rec_back_text(
            name@,
            crate::order::variant_models(sv@),
            p@,
        ));
    }
}

fn push_recursive_text(
    arena: &TypeArena,
    table: &NameTable,
    name: &str,
    sv: &Vec<crate::types::Variant>,
    out: &mut String,
    Ghost(st): Ghost<NameState>,
)
    requires
        graph_wf(arena@),
        table_models(*table, arena@.len() as int, st),
        sv@.len() == 2,
    ensures
        final(out)@ == old(out)@ + recursive_text(
            arena@,
            st,
            name@,
            crate::order::variant_models(sv@),
        ),
{
    let ghost svm = crate::order::variant_models(sv@);
    let pi: usize = if sv[0].payloads.len() > 0 {
        0
    } else {
        1
    };
    let ei: usize = 1 - pi;
    proof {
        assert(svm[pi as int] == sv@[pi as int]@);
        assert(svm[ei as int] == sv@[ei as int]@);
        assert(pi as int == rec_payload_idx(svm));
    }
    let pty = first_non_self_exec(arena, &sv[pi].payloads, 0);
    proof {
        assert(svm[pi as int].payloads == sv@[pi as int].payloads@.map_values(
            |p: usize| p as int,
        ));
        assert(pty as int == rec_payload_ty(arena@, svm));
    }
    let mut p = String::new();
    push_type_ref(arena, table, pty, &mut p, Ghost(st));
    push_rec_front_text(name, sv, p.as_str(), sv[pi].name.as_str(), sv[ei].name.as_str(), out);
    push_rec_back_text(name, sv, p.as_str(), out);
    proof {
        assert(out@ =~= old(out)@ + recursive_text(arena@, st, name@, svm));
    }
}

/// Payload identifier bounds survive any permutation of the variants.
proof fn lemma_payload_bounds_permutation(
    a: Seq<crate::types::VariantModel>,
    b: Seq<crate::types::VariantModel>,
    n: int,
)
    requires
        variants_payloads_in(a, n),
        a.to_multiset() == b.to_multiset(),
    ensures
        variants_payloads_in(b, n),
{
    assert forall|j: int, k: int|
        0 <= j < b.len() && 0 <= k < (#[trigger] b[j]).payloads.len() implies 0 <= #[trigger] b[j].payloads[k]
        < n by {
        assert(b.contains(b[j]));
        vstd::seq_lib::to_multiset_contains(b, b[j]);
        vstd::seq_lib::to_multiset_contains(a, b[j]);
        assert(a.contains(b[j]));
        let w = choose|w: int| 0 <= w < a.len() && a[w] == b[j];
        assert(0 <= a[w].payloads[k] < n);
    }
}

fn copy_payloads(ps: &Vec<usize>) -> (r: Vec<usize>)
    ensures
        r@ == ps@,
{
    let mut r: Vec<usize> = Vec::new();
    let mut k: usize = 0;
    while k < ps.len()
        invariant
            k <= ps@.len(),
            r@ == ps@.take(k as int),
        decreases ps@.len() - k,
    {
        r.push(ps[k]);
        proof {
            assert(r@ =~= ps@.take(k as int + 1));
        }
        k += 1;
    }
    proof {
        assert(ps@.take(ps@.len() as int) =~= ps@);
    }
    r
}

fn clone_variants(vs: &Vec<crate::types::Variant>) -> (r: Vec<crate::types::Variant>)
    ensures
        crate::order::variant_models(r@) == crate::order::variant_models(vs@),
        r@.len() == vs@.len(),
{
    let ghost vm = crate::order::variant_models(vs@);
    let mut r: Vec<crate::types::Variant> = Vec::new();
    let mut k: usize = 0;
    while k < vs.len()
        invariant
            k <= vs@.len(),
            vm == crate::order::variant_models(vs@),
            crate::order::variant_models(r@) == vm.take(k as int),
        decreases vs@.len() - k,
    {
        let name = vs[k].name.clone();
        let payloads = copy_payloads(&vs[k].payloads);
        proof {
            assert(name@ == vs@[k as int].name@);
            assert(payloads@ == vs@[k as int].payloads@);
        }
        let w = crate::types::Variant { name, payloads };
        let ghost rm = crate::order::variant_models(r@);
        proof {
            assert(w@ == vm[k as int]);
        }
        r.push(w);
        proof {
            assert(crate::order::variant_models(r@) =~= rm.push(w@));
            assert(vm.take(k as int).push(vm[k as int]) =~= vm.take(k as int + 1));
            assert(crate::order::variant_models(r@) =~= vm.take(k as int + 1));
        }
        k += 1;
    }
    proof {
        assert(vm.take(vs@.len() as int) =~= vm);
    }
    r
}

/// The resolved name of `id`, as an owned string.
fn get_name_string(table: &NameTable, id: usize, Ghost(st): Ghost<NameState>, Ghost(n): Ghost<
    int,
>) -> (r: String)
    requires
        table_models(*table, n, st),
        id < n,
    ensures
        r@ == name_of(st, id as int),
{
    proof {
        assert(name_slot_models(table.names@[id as int], st.names, id as int));
    }
    match &table.names[id] {
        Some(s) => s.clone(),
        None => {
            let mut u = String::new();
            u.append("Unnamed");
            u
        },
    }
}

/// The emission of a tag union, by the strategy its variants select.
pub open spec fn union_text(
    g: Seq<TypeModel>,
    st: NameState,
    id: int,
    variants: Seq<crate::types::VariantModel>,
) -> Seq<char> {
    let svm = crate::order::sort_variants_spec(variants);
    match crate::layout::classify_union(g, variants) {
        crate::layout::Strategy::NullableRecursive => recursive_text(g, st, name_of(st, id), svm),
        crate::layout::Strategy::Enumeration => enum_text(name_of(st, id), type_caps(g, id), svm),
        crate::layout::Strategy::Transparent => transparent_text(
            g,
            st,
            name_of(st, id),
            type_caps(g, id),
            variants[0].payloads[0],
        ),
        crate::layout::Strategy::PlainStruct => struct_text(
            g,
            st,
            name_of(st, id),
            type_caps(g, id),
            crate::layout::positional_layout(g, variants[0].payloads),
        ),
        crate::layout::Strategy::TaggedUnion => tagged_text(
            g,
            st,
            name_of(st, id),
            svm,
            type_caps(g, id),
        ),
    }
}

/// The whole emission of the type `id`: a declaration and its operation
/// set for a composite, nothing for a scalar or handle type, which are
/// never named.
pub open spec fn type_text(g: Seq<TypeModel>, st: NameState, id: int) -> Seq<char> {
    if 0 <= id < g.len() {
        match g[id] {
            TypeModel::Record(fields) => struct_text(
                g,
                st,
                name_of(st, id),
                type_caps(g, id),
                crate::layout::record_layout(g, fields),
            ),
            TypeModel::TagUnion(variants) => union_text(g, st, id, variants),
            _ => Seq::empty(),
        }
    } else {
        Seq::empty()
    }
}

#[verifier::rlimit(60)]
fn push_type_text(
    arena: &TypeArena,
    table: &NameTable,
    id: usize,
    out: &mut String,
    Ghost(st): Ghost<NameState>,
)
    requires
        graph_wf(arena@),
        table_models(*table, arena@.len() as int, st),
    ensures
        final(out)@ == old(out)@ + type_text(arena@, st, id as int),
{
    if id >= arena.len() {
        return ;
    }
    proof {
        assert(node_wf(arena@, id as int));
    }
    let node = arena.resolve(id);
    match node {
        StructuralType::Record(fields) => {
            let ghost fm = fields@.map_values(|f: crate::types::Field| f@);
            proof {
                assert(arena@[id as int] == TypeModel::Record(fm));
                assert forall|j: int|
                    0 <= j < fields@.len() implies 0 <= (#[trigger] fields@[j]).ty
                    < arena@.len() by {
                    assert(fm[j].ty == fields@[j].ty as int);
                    assert(0 <= fm[j].ty < id as int);
                }
            }
            let slots = crate::layout::build_record_slots(arena, fields);
            let sorted = crate::layout::sort_slots(slots);
            let caps = crate::caps::caps_of(arena, id);
            let name = get_name_string(table, id, Ghost(st), Ghost(arena@.len() as int));
            push_struct_text(arena, table, &name, &caps, &sorted, out, Ghost(st));
        },
        StructuralType::TagUnion(variants) => {
            let ghost vm = variants@.map_values(|v: crate::types::Variant| v@);
            proof {
                assert(arena@[id as int] == TypeModel::TagUnion(vm));
                assert(crate::order::distinct_variant_names(vm)) by {
                    assert forall|x: int, y: int|
                        0 <= x < y < vm.len() implies (#[trigger] vm[x]).name != (
                    #[trigger] vm[y]).name by {}
                }
                assert(variants_payloads_in(vm, arena@.len() as int)) by {
                    assert forall|j: int, k: int|
                        0 <= j < vm.len() && 0 <= k < (#[trigger] vm[j]).payloads.len() implies 0
                        <= #[trigger] vm[j].payloads[k] < arena@.len() by {
                        assert(0 <= vm[j].payloads[k] < id as int);
                    }
                }
            }
            let mut sv = clone_variants(variants);
            crate::order::sort_variants(&mut sv);
            proof {
                crate::order::lemma_sort_variants_canonical(
                    vm,
                    crate::order::variant_models(sv@),
                );
                crate::order::lemma_sort_variants_props(vm);
                lemma_payload_bounds_permutation(
                    vm,
                    crate::order::variant_models(sv@),
                    arena@.len() as int,
                );
            }
            let n = arena.len();
            let caps = crate::caps::caps_of(arena, id);
            let name = get_name_string(table, id, Ghost(st), Ghost(arena@.len() as int));
            if crate::layout::union_recursive_exec(arena, variants, n) {
                proof {
                    crate::caps::lemma_recursive_below_full(arena@, vm);
                    assert(crate::types::recursive_form_ok(arena@, vm));
                }
                push_recursive_text(arena, table, name.as_str(), &sv, out, Ghost(st));
            } else if crate::layout::all_variants_empty(variants) {
                proof {
                    crate::caps::lemma_recursive_below_full(arena@, vm);
                }
                push_enum_text(name.as_str(), &caps, &sv, out);
            } else if variants.len() == 1 {
                proof {
                    crate::caps::lemma_recursive_below_full(arena@, vm);
                }
                if variants[0].payloads.len() == 1 {
                    let p = variants[0].payloads[0];
                    proof {
                        assert(vm[0].payloads[0] == p as int);
                    }
                    push_transparent_text(arena, table, &name, &caps, p, out, Ghost(st));
                } else {
                    proof {
                        assert(vm[0].payloads == variants@[0].payloads@.map_values(
                            |q: usize| q as int,
                        ));
                        assert forall|j: int|
                            0 <= j < variants@[0].payloads@.len() implies (
                        #[trigger] variants@[0].payloads@[j]) < arena@.len() by {
                            assert(0 <= vm[0].payloads[j] < arena@.len());
                        }
                    }
                    let slots = crate::layout::build_positional_slots(
                        arena,
                        &variants[0].payloads,
                    );
                    let sorted = crate::layout::sort_slots(slots);
                    push_struct_text(arena, table, &name, &caps, &sorted, out, Ghost(st));
                }
            } else {
                proof {
                    crate::caps::lemma_recursive_below_full(arena@, vm);
                }
                push_tagged_text(arena, table, name.as_str(), &sv, &caps, out, Ghost(st));
            }
        },
        _ => {},
    }
}

/// The emitted declarations of the named types from position `from` of
/// the emission order on, each preceded by a blank line.
pub open spec fn emit_order(
    g: Seq<TypeModel>,
    st: NameState,
    order: Seq<int>,
    from: int,
) -> Seq<char>
    decreases order.len() - from,
{
    if !(0 <= from < order.len()) {
        Seq::empty()
    } else {
        "\n"@ + type_text(g, st, order[from]) + emit_order(g, st, order, from + 1)
    }
}

/// The complete output of a generation run: every named type, in
/// name-resolution order, separated by blank lines.
pub open spec fn emit_types(
    g: Seq<TypeModel>,
    aliases: Seq<Option<Seq<char>>>,
    root: int,
) -> Seq<char> {
    let st = crate::names::resolved_names(g, aliases, root);
    emit_order(g, st, st.order, 0)
}

fn push_order_from(
    arena: &TypeArena,
    table: &NameTable,
    from: usize,
    out: &mut String,
    Ghost(st): Ghost<NameState>,
)
    requires
        graph_wf(arena@),
        table_models(*table, arena@.len() as int, st),
        from <= table.order@.len(),
    ensures
        final(out)@ == old(out)@ + emit_order(arena@, st, st.order, from as int),
    decreases table.order@.len() - from,
{
    if from < table.order.len() {
        let id = table.order[from];
        proof {
            assert(st.order[from as int] == id as int);
        }
        out.append("\n");
        push_type_text(arena, table, id, out, Ghost(st));
        push_order_from(arena, table, from + 1, out, Ghost(st));
        proof {
            assert(out@ =~= old(out)@ + emit_order(arena@, st, st.order, from as int));
        }
    } else {
        proof {
            assert(st.order.len() == table.order@.len());
        }
    }
}

/// Generates the complete textual output for the run rooted at `root`:
/// name resolution, layout selection, capability analysis and emission in
/// one pass, as a pure function of the type graph.
pub fn write_types(arena: &TypeArena, root: usize) -> (out: String)
    requires
        arena.alias_aligned(),
        graph_wf(arena@),
        root < arena@.len(),
    ensures
        out@ == emit_types(arena@, arena.alias_seq(), root as int),
{
    let table = crate::names::resolve_names(arena, root);
    let ghost st = crate::names::resolved_names(arena@, arena.alias_seq(), root as int);
    let mut out = String::new();
    push_order_from(arena, &table, 0, &mut out, Ghost(st));
    proof {
        assert(out@ =~= emit_types(arena@, arena.alias_seq(), root as int));
    }
    out
}

} // verus!

//! Layout selection.
//!
//! Every composite type is classified into exactly one representation
//! strategy, and the physical order of its slots is fixed here. Slots are
//! sorted by strictly descending physical size, ties keeping declaration
//! order: the emitted layout is order-fixed, so placing larger fields
//! first minimises interior padding. The sort is stable by construction:
//! each slot carries its declaration index, and the order compares the
//! index when sizes tie.

use vstd::prelude::*;
use vstd::seq_lib::group_to_multiset_ensures;
use vstd::string::StringExecFns;

use crate::decimal::dec_str;
use crate::decimal::push_decimal;
use crate::types::Field;
use crate::types::Primitive;
use crate::types::StructuralType;
use crate::types::TypeArena;
use crate::types::TypeModel;
use crate::types::Variant;
use crate::types::VariantModel;
use crate::types::graph_wf;
use crate::types::payload_sizes_sum;
use crate::types::primitive_size;
use crate::types::type_size;
use crate::types::union_recursive_below;
use crate::types::union_size;
use crate::types::variants_max_payload;

verus! {

/// The representation strategies a composite type can fall under.
pub enum Strategy {
    /// A record, or a multi-payload single-variant tag union: an ordinary
    /// struct with size-ordered slots.
    PlainStruct,
    /// A single-variant, single-payload tag union: a one-field newtype
    /// with no discriminant.
    Transparent,
    /// A tag union where no variant carries a payload: a bare enumeration.
    Enumeration,
    /// Two or more variants, at least one payload: a payload union next to
    /// an explicit discriminant field.
    TaggedUnion,
    /// A self-recursive union in the one shape whose discriminant is
    /// pointer nullity: a single owning pointer, no discriminant field.
    NullableRecursive,
}

/// The models of a vector of slots.
pub open spec fn slot_models(s: Seq<Slot>) -> Seq<SlotModel> {
    s.map_values(|x: Slot| x@)
}

/// Whether no variant carries any payload.
pub open spec fn variants_all_empty(vm: Seq<VariantModel>) -> bool {
    forall|j: int| 0 <= j < vm.len() ==> (#[trigger] vm[j]).payloads.len() == 0
}

/// Which strategy the variants of a tag union select.
pub open spec fn classify_union(g: Seq<TypeModel>, variants: Seq<VariantModel>) -> Strategy {
    if crate::types::union_is_recursive(g, variants) {
        Strategy::NullableRecursive
    } else if variants_all_empty(variants) {
        Strategy::Enumeration
    } else if variants.len() == 1 {
        if variants[0].payloads.len() == 1 {
            Strategy::Transparent
        } else {
            Strategy::PlainStruct
        }
    } else {
        Strategy::TaggedUnion
    }
}

/// One physical slot of a struct layout: a name, the type that fills it,
/// the physical size of that type, and the declaration index the slot came
/// from.
pub struct Slot {
    pub name: String,
    pub ty: usize,
    pub size: u64,
    pub decl: usize,
}

/// Mathematical model of a slot.
pub struct SlotModel {
    pub name: Seq<char>,
    pub ty: int,
    pub size: int,
    pub decl: int,
}

impl View for Slot {
    type V = SlotModel;

    open spec fn view(&self) -> SlotModel {
        SlotModel {
            name: self.name@,
            ty: self.ty as int,
            size: self.size as int,
            decl: self.decl as int,
        }
    }
}

/// Slot order: strictly larger sizes first; on equal sizes, declaration
/// order.
pub open spec fn slot_leq(a: SlotModel, b: SlotModel) -> bool {
    a.size > b.size || (a.size == b.size && a.decl <= b.decl)
}

/// The slots stand in layout order.
pub open spec fn slots_sorted(s: Seq<SlotModel>) -> bool {
    forall|i: int, j: int| 0 <= i < j < s.len() ==> slot_leq(#[trigger] s[i], #[trigger] s[j])
}

/// Inserts a slot behind every slot that precedes it in layout order.
pub open spec fn insert_sorted(x: SlotModel, s: Seq<SlotModel>) -> Seq<SlotModel>
    decreases s.len(),
{
    if s.len() == 0 {
        seq![x]
    } else if slot_leq(s[0], x) {
        seq![s[0]] + insert_sorted(x, s.drop_first())
    } else {
        seq![x] + s
    }
}

/// Sorts slots into layout order by repeated insertion, in declaration
/// order; the insertion point keeps ties in declaration order.
pub open spec fn sort_slots_spec(s: Seq<SlotModel>) -> Seq<SlotModel>
    decreases s.len(),
{
    if s.len() == 0 {
        Seq::empty()
    } else {
        insert_sorted(s.last(), sort_slots_spec(s.drop_last()))
    }
}

/// Inserting preserves sortedness and adds exactly the new slot.
proof fn lemma_insert_sorted_props(x: SlotModel, s: Seq<SlotModel>)
    requires
        slots_sorted(s),
    ensures
        slots_sorted(insert_sorted(x, s)),
        insert_sorted(x, s).to_multiset() == s.to_multiset().insert(x),
        insert_sorted(x, s).len() == s.len() + 1,
    decreases s.len(),
{
    broadcast use group_to_multiset_ensures;

    let r = insert_sorted(x, s);
    if s.len() == 0 {
        assert(r =~= Seq::empty().insert(0, x));
        vstd::seq_lib::to_multiset_insert(Seq::empty(), 0, x);
        assert(Seq::<SlotModel>::empty().to_multiset() =~= s.to_multiset());
    } else if slot_leq(s[0], x) {
        assert(slots_sorted(s.drop_first())) by {
            assert forall|i: int, j: int|
                0 <= i < j < s.drop_first().len() implies slot_leq(
                #[trigger] s.drop_first()[i],
                #[trigger] s.drop_first()[j],
            ) by {
                assert(s.drop_first()[i] == s[i + 1]);
                assert(s.drop_first()[j] == s[j + 1]);
            }
        }
        lemma_insert_sorted_props(x, s.drop_first());
        let t = insert_sorted(x, s.drop_first());
        assert(r =~= t.insert(0, s[0]));
        vstd::seq_lib::to_multiset_insert(t, 0, s[0]);
        assert(s =~= s.drop_first().insert(0, s[0]));
        vstd::seq_lib::to_multiset_insert(s.drop_first(), 0, s[0]);
        assert(r.to_multiset() =~= s.to_multiset().insert(x));
        // Everything in t is either x or a slot of s, so the head stays
        // first in layout order.
        assert forall|i: int, j: int| 0 <= i < j < r.len() implies slot_leq(
            #[trigger] r[i],
            #[trigger] r[j],
        ) by {
            if i == 0 {
                assert(r[j] == t[j - 1]);
                assert(t.to_multiset().count(t[j - 1]) > 0);
                assert(s.drop_first().to_multiset().insert(x).count(t[j - 1]) > 0);
                if t[j - 1] == x {
                    assert(slot_leq(s[0], x));
                } else {
                    assert(s.drop_first().to_multiset().count(t[j - 1]) > 0);
                    assert(s.drop_first().contains(t[j - 1]));
                    let w = choose|w: int|
                        0 <= w < s.drop_first().len() && s.drop_first()[w] == t[j - 1];
                    assert(s.drop_first()[w] == s[w + 1]);
                    assert(slot_leq(s[0], s[w + 1]));
                }
            } else {
                assert(r[i] == t[i - 1]);
                assert(r[j] == t[j - 1]);
            }
        }
    } else {
        assert(r =~= s.insert(0, x));
        vstd::seq_lib::to_multiset_insert(s, 0, x);
        // x goes in front of a slot it precedes, hence in front of the
        // whole sorted rest.
        assert(!slot_leq(s[0], x));
        assert forall|i: int, j: int| 0 <= i < j < r.len() implies slot_leq(
            #[trigger] r[i],
            #[trigger] r[j],
        ) by {
            if i == 0 {
                assert(r[j] == s[j - 1]);
                if j - 1 > 0 {
                    assert(slot_leq(s[0], s[j - 1]));
                }
            } else {
                assert(r[i] == s[i - 1]);
                assert(r[j] == s[j - 1]);
            }
        }
    }
}

/// The sorted slots are exactly the declared slots, in layout order.
pub proof fn lemma_sort_slots_props(s: Seq<SlotModel>)
    ensures
        slots_sorted(sort_slots_spec(s)),
        sort_slots_spec(s).to_multiset() == s.to_multiset(),
        sort_slots_spec(s).len() == s.len(),
    decreases s.len(),
{
    broadcast use group_to_multiset_ensures;

    if s.len() == 0 {
        assert(sort_slots_spec(s) =~= Seq::empty());
        assert(s.to_multiset() =~= Seq::<SlotModel>::empty().to_multiset());
    } else {
        lemma_sort_slots_props(s.drop_last());
        lemma_insert_sorted_props(s.last(), sort_slots_spec(s.drop_last()));
        assert(s =~= s.drop_last().push(s.last()));
        assert(s.drop_last().push(s.last()).to_multiset() == s.drop_last().to_multiset().insert(
            s.last(),
        ));
    }
}

fn slot_leq_exec(a: &Slot, b: &Slot) -> (r: bool)
    ensures
        r == slot_leq(a@, b@),
{
    a.size > b.size || (a.size == b.size && a.decl <= b.decl)
}

/// Where the new slot goes: behind every slot that precedes it.
proof fn lemma_insert_at(s: Seq<SlotModel>, x: SlotModel, pos: int)
    requires
        0 <= pos <= s.len(),
        forall|k: int| 0 <= k < pos ==> slot_leq(#[trigger] s[k], x),
        pos < s.len() ==> !slot_leq(s[pos], x),
    ensures
        insert_sorted(x, s) == s.insert(pos, x),
    decreases pos,
{
    if pos == 0 {
        assert(insert_sorted(x, s) =~= s.insert(0, x));
    } else {
        assert(slot_leq(s[0], x));
        lemma_insert_at(s.drop_first(), x, pos - 1);
        assert(insert_sorted(x, s) == seq![s[0]] + s.drop_first().insert(pos - 1, x));
        assert(seq![s[0]] + s.drop_first().insert(pos - 1, x) =~= s.insert(pos, x));
    }
}

/// Sorts the slots into layout order.
#[verifier::loop_isolation(false)]
pub fn sort_slots(slots: Vec<Slot>) -> (r: Vec<Slot>)
    ensures
        slot_models(r@) == sort_slots_spec(slot_models(slots@)),
{
    let ghost all = slot_models(slots@);
    let mut out: Vec<Slot> = Vec::new();
    let mut src = slots;
    let ghost n = all.len();
    let total = src.len();
    let mut taken: usize = 0;
    proof {
        assert(n == total);
        assert(all.take(0) =~= Seq::empty());
        assert(slot_models(out@) =~= sort_slots_spec(all.take(0)));
    }
    while src.len() > 0
        invariant
            taken + src@.len() == n,
            all.skip(taken as int) == slot_models(src@),
            slot_models(out@) == sort_slots_spec(all.take(taken as int)),
        decreases src@.len(),
    {
        let ghost om = slot_models(out@);
        let ghost sm = slot_models(src@);
        let x = src.remove(0);
        proof {
            assert(x@ == sm[0]);
            assert(sm[0] == all.skip(taken as int)[0]);
            assert(all.skip(taken as int)[0] == all[taken as int]);
            assert(slot_models(src@) =~= sm.drop_first());
            assert(sm.drop_first() =~= all.skip(taken as int + 1));
        }
        let mut pos: usize = 0;
        while pos < out.len() && slot_leq_exec(&out[pos], &x)
            invariant
                pos <= out@.len(),
                om == slot_models(out@),
                forall|k: int| 0 <= k < pos ==> slot_leq(#[trigger] om[k], x@),
            decreases out@.len() - pos,
        {
            pos += 1;
        }
        proof {
            lemma_insert_at(om, x@, pos as int);
        }
        out.insert(pos, x);
        taken += 1;
        proof {
            assert(slot_models(out@) =~= om.insert(pos as int, x@));
            assert(all.take(taken as int).drop_last() =~= all.take(taken as int - 1));
            assert(all.take(taken as int).last() == all[taken as int - 1]);
        }
    }
    proof {
        assert(all.skip(taken as int).len() == 0);
        assert(taken == n);
        assert(all.take(n as int) =~= all);
    }
    out
}

fn prim_size(p: &Primitive) -> (s: u64)
    ensures
        s as nat == primitive_size(*p),
{
    match p {
        Primitive::Unit => 0,
        Primitive::Bool => 1,
        Primitive::U8 => 1,
        Primitive::U16 => 2,
        Primitive::U32 => 4,
        Primitive::U64 => 8,
        Primitive::U128 => 16,
        Primitive::I8 => 1,
        Primitive::I16 => 2,
        Primitive::I32 => 4,
        Primitive::I64 => 8,
        Primitive::I128 => 16,
        Primitive::F32 => 4,
        Primitive::F64 => 8,
    }
}

/// A later suffix never sums to more than an earlier one.
proof fn lemma_sum_skip_le(g: Seq<TypeModel>, tys: Seq<int>, from: int, bound: int)
    requires
        0 <= from <= tys.len(),
    ensures
        payload_sizes_sum(g, tys.skip(from), bound) <= payload_sizes_sum(g, tys, bound),
    decreases from,
{
    if from == 0 {
        assert(tys.skip(0) =~= tys);
    } else {
        lemma_sum_skip_le(g, tys, from - 1, bound);
        let s = tys.skip(from - 1);
        assert(s.len() > 0);
        assert(s[0] == tys[from - 1]);
        assert(s.drop_first() =~= tys.skip(from));
    }
}

/// Every variant's payload sum is at most the running maximum.
proof fn lemma_sum_le_max(g: Seq<TypeModel>, variants: Seq<VariantModel>, j: int, bound: int)
    requires
        0 <= j < variants.len(),
    ensures
        payload_sizes_sum(g, variants[j].payloads, bound) <= variants_max_payload(
            g,
            variants,
            bound,
        ),
    decreases j,
{
    if j == 0 {
    } else {
        lemma_sum_le_max(g, variants.drop_first(), j - 1, bound);
        assert(variants.drop_first()[j - 1] == variants[j]);
    }
}

/// Sums the sizes of the types listed from position `from` on.
fn sum_payloads_from(arena: &TypeArena, tys: &Vec<usize>, from: usize, bound: usize) -> (s: u64)
    requires
        graph_wf(arena@),
        bound <= arena@.len(),
        from <= tys@.len(),
        payload_sizes_sum(
            arena@,
            tys@.map_values(|p: usize| p as int),
            bound as int,
        ) <= 0xFFFF_FFFF,
    ensures
        s as nat == payload_sizes_sum(
            arena@,
            tys@.map_values(|p: usize| p as int).skip(from as int),
            bound as int,
        ),
    decreases bound as int, 1int, tys@.len() - from,
{
    let ghost tm = tys@.map_values(|p: usize| p as int);
    if from >= tys.len() {
        proof {
            assert(tm.skip(from as int).len() == 0);
        }
        0
    } else {
        let ty = tys[from];
        proof {
            assert(tm.skip(from as int)[0] == ty as int);
            assert(tm.skip(from as int).drop_first() =~= tm.skip(from as int + 1));
            lemma_sum_skip_le(arena@, tm, from as int, bound as int);
            lemma_sum_skip_le(arena@, tm, from as int + 1, bound as int);
        }
        let head: u64 = if ty < bound {
            proof {
                assert(type_size(arena@, ty as int) <= 0xFFFF_FFFF);
            }
            size_of_type(arena, ty)
        } else {
            0
        };
        let rest = sum_payloads_from(arena, tys, from + 1, bound);
        head + rest
    }
}

/// Sums the sizes of the field types from position `from` on.
fn sum_fields_from(arena: &TypeArena, fields: &Vec<Field>, from: usize, bound: usize) -> (s: u64)
    requires
        graph_wf(arena@),
        bound <= arena@.len(),
        from <= fields@.len(),
        payload_sizes_sum(
            arena@,
            fields@.map_values(|f: Field| f@).map_values(|f: crate::types::FieldModel| f.ty),
            bound as int,
        ) <= 0xFFFF_FFFF,
    ensures
        s as nat == payload_sizes_sum(
            arena@,
            fields@.map_values(|f: Field| f@).map_values(
                |f: crate::types::FieldModel| f.ty,
            ).skip(from as int),
            bound as int,
        ),
    decreases bound as int, 1int, fields@.len() - from,
{
    let ghost tm = fields@.map_values(|f: Field| f@).map_values(
        |f: crate::types::FieldModel| f.ty,
    );
    if from >= fields.len() {
        proof {
            assert(tm.skip(from as int).len() == 0);
        }
        0
    } else {
        let ty = fields[from].ty;
        proof {
            assert(tm.skip(from as int)[0] == ty as int);
            assert(tm.skip(from as int).drop_first() =~= tm.skip(from as int + 1));
            lemma_sum_skip_le(arena@, tm, from as int, bound as int);
            lemma_sum_skip_le(arena@, tm, from as int + 1, bound as int);
        }
        let head: u64 = if ty < bound {
            proof {
                assert(type_size(arena@, ty as int) <= 0xFFFF_FFFF);
            }
            size_of_type(arena, ty)
        } else {
            0
        };
        let rest = sum_fields_from(arena, fields, from + 1, bound);
        head + rest
    }
}

/// Whether any payload below `bound` is a self-reference node.
#[verifier::loop_isolation(false)]
pub(crate) fn union_recursive_exec(arena: &TypeArena, variants: &Vec<Variant>, bound: usize) -> (r: bool)
    requires
        bound <= arena@.len(),
    ensures
        r == union_recursive_below(
            arena@,
            variants@.map_values(|v: Variant| v@),
            bound as int,
        ),
{
    let ghost vm = variants@.map_values(|v: Variant| v@);
    let mut j: usize = 0;
    while j < variants.len()
        invariant
            j <= variants@.len(),
            bound <= arena@.len(),
            vm == variants@.map_values(|v: Variant| v@),
            forall|t: int|
                0 <= t < j ==> !crate::types::variant_self_below(arena@, #[trigger] vm[t], bound as int),
        decreases variants@.len() - j,
    {
        let payloads = &variants[j].payloads;
        let ghost pm = vm[j as int].payloads;
        let mut k: usize = 0;
        while k < payloads.len()
            invariant
                k <= payloads@.len(),
                bound <= arena@.len(),
                pm == payloads@.map_values(|p: usize| p as int),
                forall|t: int|
                    0 <= t < k ==> !((#[trigger] pm[t]) < bound && crate::types::is_self_ref(
                        arena@,
                        pm[t],
                    )),
            decreases payloads@.len() - k,
        {
            let p = payloads[k];
            if p < bound {
                let node = arena.resolve(p);
                if let StructuralType::SelfReference = node {
                    proof {
                        assert(vm[j as int] == variants@[j as int]@);
                        assert(vm[j as int].payloads == pm);
                        assert(vm[j as int].payloads[k as int] < bound && crate::types::is_self_ref(
                            arena@,
                            vm[j as int].payloads[k as int],
                        ));
                        assert(crate::types::variant_self_below(
                            arena@,
                            vm[j as int],
                            bound as int,
                        ));
                    }
                    return true;
                }
            }
            k += 1;
        }
        proof {
            assert(vm[j as int].payloads == pm);
            assert(!crate::types::variant_self_below(arena@, vm[j as int], bound as int));
        }
        j += 1;
    }
    false
}

/// Whether every variant has an empty payload list.
pub(crate) fn all_variants_empty(variants: &Vec<Variant>) -> (r: bool)
    ensures
        r == variants_all_empty(variants@.map_values(|v: Variant| v@)),
{
    let ghost vm = variants@.map_values(|v: Variant| v@);
    let mut j: usize = 0;
    while j < variants.len()
        invariant
            j <= variants@.len(),
            vm == variants@.map_values(|v: Variant| v@),
            forall|t: int| 0 <= t < j ==> (#[trigger] vm[t]).payloads.len() == 0,
        decreases variants@.len() - j,
    {
        if variants[j].payloads.len() > 0 {
            assert(vm[j as int].payloads.len() > 0);
            return false;
        }
        j += 1;
    }
    true
}

/// The largest payload sum among the variants from position `from` on.
fn max_payload_from(arena: &TypeArena, variants: &Vec<Variant>, from: usize, bound: usize) -> (s:
    u64)
    requires
        graph_wf(arena@),
        bound <= arena@.len(),
        from <= variants@.len(),
        variants_max_payload(
            arena@,
            variants@.map_values(|v: Variant| v@),
            bound as int,
        ) <= 0xFFFF_FFFF,
    ensures
        s as nat == variants_max_payload(
            arena@,
            variants@.map_values(|v: Variant| v@).skip(from as int),
            bound as int,
        ),
    decreases bound as int, 2int, variants@.len() - from,
{
    let ghost vm = variants@.map_values(|v: Variant| v@);
    if from >= variants.len() {
        proof {
            assert(vm.skip(from as int).len() == 0);
        }
        0
    } else {
        proof {
            assert(vm.skip(from as int)[0] == vm[from as int]);
            assert(vm.skip(from as int).drop_first() =~= vm.skip(from as int + 1));
            lemma_max_skip_le(arena@, vm, from as int, bound as int);
            lemma_max_skip_le(arena@, vm, from as int + 1, bound as int);
            lemma_sum_le_max(arena@, vm.skip(from as int), 0, bound as int);
            assert(vm[from as int].payloads == variants@[from as int]@.payloads);
        }
        let head = sum_payloads_from(arena, &variants[from].payloads, 0, bound);
        proof {
            assert(variants@[from as int].payloads@.map_values(|p: usize| p as int).skip(0)
                =~= vm[from as int].payloads);
        }
        let rest = max_payload_from(arena, variants, from + 1, bound);
        if head >= rest {
            head
        } else {
            rest
        }
    }
}

/// A later suffix never has a larger maximum than an earlier one.
proof fn lemma_max_skip_le(g: Seq<TypeModel>, variants: Seq<VariantModel>, from: int, bound: int)
    requires
        0 <= from <= variants.len(),
    ensures
        variants_max_payload(g, variants.skip(from), bound) <= variants_max_payload(
            g,
            variants,
            bound,
        ),
    decreases from,
{
    if from == 0 {
        assert(variants.skip(0) =~= variants);
    } else {
        lemma_max_skip_le(g, variants, from - 1, bound);
        let s = variants.skip(from - 1);
        assert(s.len() > 0);
        assert(s[0] == variants[from - 1]);
        assert(s.drop_first() =~= variants.skip(from));
    }
}

/// Physical size in bytes of the type registered under `i`: the sort key
/// for slot ordering.
pub fn size_of_type(arena: &TypeArena, i: usize) -> (s: u64)
    requires
        graph_wf(arena@),
        i < arena@.len(),
    ensures
        s as nat == type_size(arena@, i as int),
    decreases i as int, 4int, 0int,
{
    proof {
        assert(type_size(arena@, i as int) <= 0xFFFF_FFFF);
    }
    let node = arena.resolve(i);
    match node {
        StructuralType::Primitive(p) => prim_size(p),
        StructuralType::Text => 24,
        StructuralType::Sequence(_) => 24,
        StructuralType::SelfReference => 8,
        StructuralType::Record(fields) => {
            let s = sum_fields_from(arena, fields, 0, i);
            proof {
                let tm = fields@.map_values(|f: Field| f@).map_values(
                    |f: crate::types::FieldModel| f.ty,
                );
                assert(tm.skip(0) =~= tm);
            }
            s
        },
        StructuralType::TagUnion(variants) => {
            let ghost vm = variants@.map_values(|v: Variant| v@);
            proof {
                assert(type_size(arena@, i as int) == union_size(arena@, vm, i as int));
            }
            if union_recursive_exec(arena, variants, i) {
                8
            } else if all_variants_empty(variants) {
                1
            } else if variants.len() == 1 {
                proof {
                    assert(vm[0].payloads == variants@[0]@.payloads);
                }
                let s = sum_payloads_from(arena, &variants[0].payloads, 0, i);
                proof {
                    let pm = variants@[0].payloads@.map_values(|p: usize| p as int);
                    assert(pm.skip(0) =~= pm);
                    assert(pm == vm[0].payloads);
                }
                s
            } else {
                let m = max_payload_from(arena, variants, 0, i);
                proof {
                    assert(vm.skip(0) =~= vm);
                }
                1 + m
            }
        },
    }
}

/// The slot a record field declares, before layout ordering.
pub open spec fn field_slot(g: Seq<TypeModel>, f: crate::types::FieldModel, j: int) -> SlotModel {
    SlotModel { name: f.name, ty: f.ty, size: type_size(g, f.ty) as int, decl: j }
}

/// The slots of a record, in declaration order.
pub open spec fn record_slots(g: Seq<TypeModel>, fields: Seq<crate::types::FieldModel>) -> Seq<
    SlotModel,
> {
    Seq::new(fields.len(), |j: int| field_slot(g, fields[j], j))
}

/// The positionally renamed slot of a flattened payload: the original
/// field names are not preserved across the variant boundary, so slot `j`
/// is called `f{j}`.
pub open spec fn positional_slot(g: Seq<TypeModel>, ty: int, j: int) -> SlotModel {
    SlotModel {
        name: "f"@ + dec_str(j as nat),
        ty: ty,
        size: type_size(g, ty) as int,
        decl: j,
    }
}

/// The positional slots of a multi-payload single variant, in declaration
/// order.
pub open spec fn positional_slots(g: Seq<TypeModel>, tys: Seq<int>) -> Seq<SlotModel> {
    Seq::new(tys.len(), |j: int| positional_slot(g, tys[j], j))
}

/// The physical slot order of a record.
pub open spec fn record_layout(g: Seq<TypeModel>, fields: Seq<crate::types::FieldModel>) -> Seq<
    SlotModel,
> {
    sort_slots_spec(record_slots(g, fields))
}

/// The physical slot order of a flattened single-variant payload list.
pub open spec fn positional_layout(g: Seq<TypeModel>, tys: Seq<int>) -> Seq<SlotModel> {
    sort_slots_spec(positional_slots(g, tys))
}

/// Law: a record's emitted slots are exactly its declared slots, ordered
/// by strictly descending physical size with ties kept in declaration
/// order.
pub proof fn lemma_record_layout_law(g: Seq<TypeModel>, fields: Seq<crate::types::FieldModel>)
    ensures
        slots_sorted(record_layout(g, fields)),
        record_layout(g, fields).to_multiset() == record_slots(g, fields).to_multiset(),
        record_layout(g, fields).len() == fields.len(),
{
    lemma_sort_slots_props(record_slots(g, fields));
}

/// Law: the positionally renamed slots of a multi-payload single variant
/// are ordered exactly as a record's would be: descending size, ties in
/// declaration order.
pub proof fn lemma_positional_layout_law(g: Seq<TypeModel>, tys: Seq<int>)
    ensures
        slots_sorted(positional_layout(g, tys)),
        positional_layout(g, tys).to_multiset() == positional_slots(g, tys).to_multiset(),
        positional_layout(g, tys).len() == tys.len(),
{
    lemma_sort_slots_props(positional_slots(g, tys));
}

/// Builds a record's slots in declaration order.
#[verifier::loop_isolation(false)]
pub fn build_record_slots(arena: &TypeArena, fields: &Vec<Field>) -> (r: Vec<Slot>)
    requires
        graph_wf(arena@),
        forall|j: int|
            0 <= j < fields@.len() ==> 0 <= (#[trigger] fields@[j]).ty < arena@.len(),
    ensures
        slot_models(r@) == record_slots(arena@, fields@.map_values(|f: Field| f@)),
{
    let ghost fm = fields@.map_values(|f: Field| f@);
    let mut r: Vec<Slot> = Vec::new();
    let mut j: usize = 0;
    while j < fields.len()
        invariant
            j <= fields@.len(),
            slot_models(r@) == record_slots(arena@, fm).take(j as int),
        decreases fields@.len() - j,
    {
        let ty = fields[j].ty;
        let size = size_of_type(arena, ty);
        let name = fields[j].name.clone();
        r.push(Slot { name, ty, size, decl: j });
        proof {
            assert(slot_models(r@) =~= record_slots(arena@, fm).take(j as int + 1));
        }
        j += 1;
    }
    proof {
        assert(record_slots(arena@, fm).take(fm.len() as int) =~= record_slots(arena@, fm));
    }
    r
}

/// Builds the positionally renamed slots of a payload list.
#[verifier::loop_isolation(false)]
pub fn build_positional_slots(arena: &TypeArena, tys: &Vec<usize>) -> (r: Vec<Slot>)
    requires
        graph_wf(arena@),
        forall|j: int| 0 <= j < tys@.len() ==> (#[trigger] tys@[j]) < arena@.len(),
    ensures
        slot_models(r@) == positional_slots(arena@, tys@.map_values(|p: usize| p as int)),
{
    let ghost tm = tys@.map_values(|p: usize| p as int);
    let mut r: Vec<Slot> = Vec::new();
    let mut j: usize = 0;
    while j < tys.len()
        invariant
            j <= tys@.len(),
            slot_models(r@) == positional_slots(arena@, tm).take(j as int),
        decreases tys@.len() - j,
    {
        let ty = tys[j];
        let size = size_of_type(arena, ty);
        let mut name = String::new();
        name.append("f");
        push_decimal(&mut name, j as u128);
        r.push(Slot { name, ty, size, decl: j });
        proof {
            assert(slot_models(r@) =~= positional_slots(arena@, tm).take(j as int + 1));
        }
        j += 1;
    }
    proof {
        assert(positional_slots(arena@, tm).take(tm.len() as int) =~= positional_slots(
            arena@,
            tm,
        ));
    }
    r
}

} // verus!

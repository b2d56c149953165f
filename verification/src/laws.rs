//! The laws of the generator, stated once and proved against the spec
//! functions the executable pipeline is specified by.

use vstd::prelude::*;

use crate::caps::type_caps;
use crate::emit::emit_types;
use crate::emit::name_of;
use crate::emit::recursive_text;
use crate::emit::tag_lines;
use crate::emit::transparent_text;
use crate::emit::type_text;
use crate::layout::Strategy;
use crate::layout::classify_union;
use crate::layout::positional_layout;
use crate::layout::positional_slots;
use crate::layout::record_layout;
use crate::layout::record_slots;
use crate::layout::slots_sorted;
use crate::names::NameState;
use crate::order::distinct_variant_names;
use crate::order::sort_variants_spec;
use crate::order::variants_sorted;
use crate::types::FieldModel;
use crate::types::TypeModel;
use crate::types::VariantModel;
use crate::types::node_wf;
use crate::types::recursive_form_ok;
use crate::types::type_size;
use crate::types::union_is_recursive;

verus! {

/// For every record, the emitted slot order is sorted by strictly
/// descending physical size, ties keeping declaration order, and holds
/// exactly the declared fields' slots.
pub proof fn law_record_slot_order(g: Seq<TypeModel>, fields: Seq<FieldModel>)
    ensures
        slots_sorted(record_layout(g, fields)),
        record_layout(g, fields).to_multiset() == record_slots(g, fields).to_multiset(),
        record_layout(g, fields).len() == fields.len(),
{
    crate::layout::lemma_record_layout_law(g, fields);
}

/// For every single-variant union with several payloads, the positionally
/// renamed slots are ordered exactly as a record's would be.
pub proof fn law_positional_slot_order(g: Seq<TypeModel>, tys: Seq<int>)
    ensures
        slots_sorted(positional_layout(g, tys)),
        positional_layout(g, tys).to_multiset() == positional_slots(g, tys).to_multiset(),
        positional_layout(g, tys).len() == tys.len(),
{
    crate::layout::lemma_positional_layout_law(g, tys);
}

/// For every tag union, discriminant values are assigned by alphabetical
/// rank: the emitted variant order is alphabetically sorted, holds each
/// declared variant exactly as often as it was declared, and position `j`
/// is numbered `j` from zero.
pub proof fn law_discriminants_by_alphabetical_rank(vm: Seq<VariantModel>)
    ensures
        variants_sorted(sort_variants_spec(vm)),
        sort_variants_spec(vm).to_multiset() == vm.to_multiset(),
        sort_variants_spec(vm).len() == vm.len(),
        forall|j: int|
            0 <= j < sort_variants_spec(vm).len() ==> tag_lines(sort_variants_spec(vm), j)
                == "    "@ + sort_variants_spec(vm)[j].name + " = "@ + crate::decimal::dec_str(
                j as nat,
            ) + ",\n"@ + tag_lines(sort_variants_spec(vm), j + 1),
{
    crate::order::lemma_sort_variants_props(vm);
}

/// Permuting the declaration order of a tag union's variants, without
/// changing the variants themselves, never changes the emitted
/// discriminant-to-name mapping: the sorted variant list, and with it
/// every numbered tag line, is the same.
pub proof fn law_discriminants_ignore_declaration_order(a: Seq<VariantModel>, b: Seq<VariantModel>)
    requires
        distinct_variant_names(a),
        a.to_multiset() == b.to_multiset(),
    ensures
        sort_variants_spec(a) == sort_variants_spec(b),
        tag_lines(sort_variants_spec(a), 0) == tag_lines(sort_variants_spec(b), 0),
{
    crate::order::lemma_sort_variants_props(b);
    crate::order::lemma_distinct_names_permutation(a, b);
    crate::order::lemma_sort_variants_canonical(a, sort_variants_spec(b));
}

/// A single-variant, single-payload tag union is emitted as a transparent
/// one-field wrapper, with no discriminant anywhere in its text.
pub proof fn law_transparent_wrapper(
    g: Seq<TypeModel>,
    st: NameState,
    i: int,
    vm: Seq<VariantModel>,
)
    requires
        0 <= i < g.len(),
        g[i] == TypeModel::TagUnion(vm),
        node_wf(g, i),
        vm.len() == 1,
        vm[0].payloads.len() == 1,
    ensures
        classify_union(g, vm) is Transparent,
        type_text(g, st, i) == transparent_text(
            g,
            st,
            name_of(st, i),
            type_caps(g, i),
            vm[0].payloads[0],
        ),
{
    assert(!union_is_recursive(g, vm)) by {
        if union_is_recursive(g, vm) {
            assert(recursive_form_ok(g, vm));
        }
    }
    assert(!(forall|j: int| 0 <= j < vm.len() ==> (#[trigger] vm[j]).payloads.len() == 0)) by {
        assert(vm[0].payloads.len() != 0);
    }
}

/// A self-recursive union of the admissible shape collapses to a single
/// owning pointer: its physical size is one word, there is no
/// discriminant field, and its whole emission is the null-discriminant
/// form, whose discriminant is computed from pointer nullity.
pub proof fn law_null_discriminant_recursive(
    g: Seq<TypeModel>,
    st: NameState,
    i: int,
    vm: Seq<VariantModel>,
)
    requires
        0 <= i < g.len(),
        g[i] == TypeModel::TagUnion(vm),
        node_wf(g, i),
        union_is_recursive(g, vm),
    ensures
        classify_union(g, vm) is NullableRecursive,
        type_size(g, i) == 8,
        type_text(g, st, i) == recursive_text(g, st, name_of(st, i), sort_variants_spec(vm)),
{
    assert(crate::types::union_recursive_below(g, vm, i)) by {
        let j = choose|j: int|
            0 <= j < vm.len() && crate::types::variant_mentions_self(g, #[trigger] vm[j]);
        let v = vm[j];
        let k = choose|k: int|
            0 <= k < v.payloads.len() && crate::types::is_self_ref(g, #[trigger] v.payloads[k]);
        assert(0 <= v.payloads[k] < i);
        assert(crate::types::variant_self_below(g, v, i));
    }
}

/// A single-variant union with several payloads is emitted as a plain
/// struct whose slots are renamed positionally and ordered by the record
/// rule.
pub proof fn law_positional_struct(
    g: Seq<TypeModel>,
    st: NameState,
    i: int,
    vm: Seq<VariantModel>,
)
    requires
        0 <= i < g.len(),
        g[i] == TypeModel::TagUnion(vm),
        node_wf(g, i),
        vm.len() == 1,
        vm[0].payloads.len() >= 2,
    ensures
        classify_union(g, vm) is PlainStruct,
        type_text(g, st, i) == crate::emit::struct_text(
            g,
            st,
            name_of(st, i),
            type_caps(g, i),
            positional_layout(g, vm[0].payloads),
        ),
        forall|j: int|
            0 <= j < vm[0].payloads.len() ==> (#[trigger] positional_slots(
                g,
                vm[0].payloads,
            )[j]).name == "f"@ + crate::decimal::dec_str(j as nat),
{
    assert(!union_is_recursive(g, vm)) by {
        if union_is_recursive(g, vm) {
            assert(recursive_form_ok(g, vm));
        }
    }
    assert(!(forall|j: int| 0 <= j < vm.len() ==> (#[trigger] vm[j]).payloads.len() == 0)) by {
        assert(vm[0].payloads.len() != 0);
    }
}

/// A record is emitted as a plain struct over its layout-ordered slots.
pub proof fn law_record_struct(
    g: Seq<TypeModel>,
    st: NameState,
    i: int,
    fields: Seq<FieldModel>,
)
    requires
        0 <= i < g.len(),
        g[i] == TypeModel::Record(fields),
    ensures
        type_text(g, st, i) == crate::emit::struct_text(
            g,
            st,
            name_of(st, i),
            type_caps(g, i),
            record_layout(g, fields),
        ),
{
}

/// Idempotence: two runs of the generator on the same input graph produce
/// byte-identical output.
pub proof fn law_generation_idempotent(
    g: Seq<TypeModel>,
    aliases: Seq<Option<Seq<char>>>,
    root: int,
    first: Seq<char>,
    second: Seq<char>,
)
    requires
        first == emit_types(g, aliases, root),
        second == emit_types(g, aliases, root),
    ensures
        first == second,
{
}

} // verus!

//! Name resolution.
//!
//! Every composite type that will be emitted needs exactly one name. A type
//! declared under an alias in source keeps that alias. An anonymous
//! composite receives a synthetic name the first time it is encountered on
//! a depth-first walk from the single exposed root type, visiting a
//! record's fields and a union's variants' payloads in declaration order;
//! the synthetic names count up from `R1`, and a named alias does not
//! consume a counter slot. Two structurally identical anonymous types in
//! different positions get two different names: naming is positional.
//!
//! The same walk fixes the emission order: types are emitted in the order
//! they were first encountered and named.

use vstd::prelude::*;
use vstd::string::StringExecFns;

use crate::decimal::dec_str;
use crate::decimal::push_decimal;
use crate::types::FieldModel;
use crate::types::StructuralType;
use crate::types::TypeArena;
use crate::types::TypeModel;
use crate::types::VariantModel;
use crate::types::graph_wf;

verus! {

/// The state of the resolution walk: the identifiers already named, in
/// first-encounter order; the name chosen for each; and the value of the
/// synthetic-name counter.
pub struct NameState {
    pub order: Seq<int>,
    pub names: Map<int, Seq<char>>,
    pub counter: nat,
}

/// The synthetic name handed to the `k`-th anonymous composite.
pub open spec fn synthetic_name(k: nat) -> Seq<char> {
    "R"@ + dec_str(k)
}

/// Names the type `i` and appends it to the emission order: under its
/// source alias if it has one, else under the next synthetic name.
pub open spec fn enter(aliases: Seq<Option<Seq<char>>>, i: int, st: NameState) -> NameState {
    match (if 0 <= i < aliases.len() {
        aliases[i]
    } else {
        None
    }) {
        Some(n) => NameState {
            order: st.order.push(i),
            names: st.names.insert(i, n),
            counter: st.counter,
        },
        None => NameState {
            order: st.order.push(i),
            names: st.names.insert(i, synthetic_name(st.counter)),
            counter: st.counter + 1,
        },
    }
}

/// One step of the depth-first walk, at type `i`.
pub open spec fn resolve_visit(
    g: Seq<TypeModel>,
    aliases: Seq<Option<Seq<char>>>,
    i: int,
    st: NameState,
) -> NameState
    decreases i, 3int, 0int,
{
    if !(0 <= i < g.len()) {
        st
    } else {
        match g[i] {
            TypeModel::Primitive(_) => st,
            TypeModel::Text => st,
            TypeModel::SelfReference => st,
            TypeModel::Sequence(e) => if 0 <= e < i {
                resolve_visit(g, aliases, e, st)
            } else {
                st
            },
            TypeModel::Record(fields) => if st.order.contains(i) {
                st
            } else {
                fields_pass(g, aliases, fields, 0, i, enter(aliases, i, st))
            },
            TypeModel::TagUnion(variants) => if st.order.contains(i) {
                st
            } else {
                variants_pass(g, aliases, variants, 0, i, enter(aliases, i, st))
            },
        }
    }
}

/// Walks a record's fields from position `from` on, in declaration order.
pub open spec fn fields_pass(
    g: Seq<TypeModel>,
    aliases: Seq<Option<Seq<char>>>,
    fields: Seq<FieldModel>,
    from: int,
    bound: int,
    st: NameState,
) -> NameState
    decreases bound, 1int, fields.len() - from,
{
    if !(0 <= from < fields.len()) {
        st
    } else {
        let ty = fields[from].ty;
        let st1 = if 0 <= ty < bound {
            resolve_visit(g, aliases, ty, st)
        } else {
            st
        };
        fields_pass(g, aliases, fields, from + 1, bound, st1)
    }
}

/// Walks one variant's payload types from position `from` on.
pub open spec fn payloads_pass(
    g: Seq<TypeModel>,
    aliases: Seq<Option<Seq<char>>>,
    tys: Seq<int>,
    from: int,
    bound: int,
    st: NameState,
) -> NameState
    decreases bound, 1int, tys.len() - from,
{
    if !(0 <= from < tys.len()) {
        st
    } else {
        let st1 = if 0 <= tys[from] < bound {
            resolve_visit(g, aliases, tys[from], st)
        } else {
            st
        };
        payloads_pass(g, aliases, tys, from + 1, bound, st1)
    }
}

/// Walks a union's variants from position `from` on, in declaration order.
pub open spec fn variants_pass(
    g: Seq<TypeModel>,
    aliases: Seq<Option<Seq<char>>>,
    variants: Seq<VariantModel>,
    from: int,
    bound: int,
    st: NameState,
) -> NameState
    decreases bound, 2int, variants.len() - from,
{
    if !(0 <= from < variants.len()) {
        st
    } else {
        let st1 = payloads_pass(g, aliases, variants[from].payloads, 0, bound, st);
        variants_pass(g, aliases, variants, from + 1, bound, st1)
    }
}

/// The complete resolution for a generation run rooted at `root`.
pub open spec fn resolved_names(
    g: Seq<TypeModel>,
    aliases: Seq<Option<Seq<char>>>,
    root: int,
) -> NameState {
    resolve_visit(
        g,
        aliases,
        root,
        NameState { order: Seq::empty(), names: Map::empty(), counter: 1 },
    )
}

/// The executable name table: identifiers in emission order, and for each
/// arena identifier the name it resolved to, if it was visited and named.
/// The counter is wider than an identifier so that, under its invariant
/// `counter <= order.len() + 1`, the increment can never wrap.
pub struct NameTable {
    pub order: Vec<usize>,
    pub names: Vec<Option<String>>,
    pub counter: u128,
}

/// Whether one name slot agrees with the resolved map at key `k`.
pub open spec fn name_slot_models(slot: Option<String>, names: Map<int, Seq<char>>, k: int) -> bool {
    match slot {
        Some(s) => names.contains_key(k) && names[k] == s@,
        None => !names.contains_key(k),
    }
}

/// Whether the executable table is exactly the resolution state `st`, for
/// an arena of `n` types.
pub open spec fn table_models(t: NameTable, n: int, st: NameState) -> bool {
    &&& st.order == t.order@.map_values(|u: usize| u as int)
    &&& forall|k: int| 0 <= k < t.order@.len() ==> (#[trigger] t.order@[k]) < n
    &&& st.counter == t.counter
    &&& 1 <= t.counter <= t.order@.len() + 1
    &&& t.names@.len() == n
    &&& forall|k: int| 0 <= k < n ==> name_slot_models(#[trigger] t.names@[k], st.names, k)
}

/// Whether the emission order already holds identifier `i`.
fn order_contains(order: &Vec<usize>, i: usize) -> (r: bool)
    ensures
        r == order@.map_values(|u: usize| u as int).contains(i as int),
{
    let ghost m = order@.map_values(|u: usize| u as int);
    let mut k: usize = 0;
    while k < order.len()
        invariant
            k <= order@.len(),
            m == order@.map_values(|u: usize| u as int),
            forall|j: int| 0 <= j < k ==> m[j] != i as int,
        decreases order@.len() - k,
    {
        if order[k] == i {
            assert(m[k as int] == i as int);
            return true;
        }
        k += 1;
    }
    assert(!m.contains(i as int));
    false
}

fn enter_exec(arena: &TypeArena, i: usize, table: &mut NameTable, Ghost(st): Ghost<NameState>)
    requires
        arena.alias_aligned(),
        i < arena@.len(),
        table_models(*old(table), arena@.len() as int, st),
    ensures
        table_models(*final(table), arena@.len() as int, enter(arena.alias_seq(), i as int, st)),
{
    let ghost n = arena@.len() as int;
    let ghost st1 = enter(arena.alias_seq(), i as int, st);
    table.order.push(i);
    match arena.alias_of(i) {
        Some(s) => {
            let name = s.clone();
            table.names.set(i, Some(name));
        },
        None => {
            let ol = table.order.len();
            let mut name = String::new();
            name.append("R");
            push_decimal(&mut name, table.counter);
            assert(name@ == synthetic_name(st.counter));
            table.names.set(i, Some(name));
            table.counter = table.counter + 1;
        },
    }
    proof {
        assert(st1.order =~= table.order@.map_values(|u: usize| u as int));
        assert forall|k: int| 0 <= k < n implies name_slot_models(
            #[trigger] table.names@[k],
            st1.names,
            k,
        ) by {
            if k != i as int {
                assert(table.names@[k] == old(table).names@[k]);
            }
        }
    }
}

/// One step of the executable walk, at type `i`.
fn visit(arena: &TypeArena, i: usize, table: &mut NameTable, Ghost(st): Ghost<NameState>)
    requires
        arena.alias_aligned(),
        graph_wf(arena@),
        i < arena@.len(),
        table_models(*old(table), arena@.len() as int, st),
    ensures
        table_models(
            *final(table),
            arena@.len() as int,
            resolve_visit(arena@, arena.alias_seq(), i as int, st),
        ),
    decreases i as int, 3int, 0int,
{
    let node = arena.resolve(i);
    match node {
        StructuralType::Primitive(_) => {},
        StructuralType::Text => {},
        StructuralType::SelfReference => {},
        StructuralType::Sequence(e) => {
            if *e < i {
                visit(arena, *e, table, Ghost(st));
            }
        },
        StructuralType::Record(fields) => {
            if !order_contains(&table.order, i) {
                enter_exec(arena, i, table, Ghost(st));
                let ghost st1 = enter(arena.alias_seq(), i as int, st);
                visit_fields(arena, fields, 0, i, table, Ghost(st1));
            }
        },
        StructuralType::TagUnion(variants) => {
            if !order_contains(&table.order, i) {
                enter_exec(arena, i, table, Ghost(st));
                let ghost st1 = enter(arena.alias_seq(), i as int, st);
                visit_variants(arena, variants, 0, i, table, Ghost(st1));
            }
        },
    }
}

fn visit_fields(
    arena: &TypeArena,
    fields: &Vec<crate::types::Field>,
    from: usize,
    bound: usize,
    table: &mut NameTable,
    Ghost(st): Ghost<NameState>,
)
    requires
        arena.alias_aligned(),
        graph_wf(arena@),
        bound <= arena@.len(),
        table_models(*old(table), arena@.len() as int, st),
    ensures
        table_models(
            *final(table),
            arena@.len() as int,
            fields_pass(
                arena@,
                arena.alias_seq(),
                fields@.map_values(|f: crate::types::Field| f@),
                from as int,
                bound as int,
                st,
            ),
        ),
    decreases bound as int, 1int, fields@.len() - from,
{
    let ghost fm = fields@.map_values(|f: crate::types::Field| f@);
    if from < fields.len() {
        let ty = fields[from].ty;
        assert(fm[from as int].ty == ty as int);
        let ghost st1 = if (ty as int) < (bound as int) {
            resolve_visit(arena@, arena.alias_seq(), ty as int, st)
        } else {
            st
        };
        if ty < bound {
            visit(arena, ty, table, Ghost(st));
        }
        visit_fields(arena, fields, from + 1, bound, table, Ghost(st1));
    }
}

fn visit_payloads(
    arena: &TypeArena,
    tys: &Vec<usize>,
    from: usize,
    bound: usize,
    table: &mut NameTable,
    Ghost(st): Ghost<NameState>,
)
    requires
        arena.alias_aligned(),
        graph_wf(arena@),
        bound <= arena@.len(),
        table_models(*old(table), arena@.len() as int, st),
    ensures
        table_models(
            *final(table),
            arena@.len() as int,
            payloads_pass(
                arena@,
                arena.alias_seq(),
                tys@.map_values(|p: usize| p as int),
                from as int,
                bound as int,
                st,
            ),
        ),
    decreases bound as int, 1int, tys@.len() - from,
{
    let ghost tm = tys@.map_values(|p: usize| p as int);
    if from < tys.len() {
        let ty = tys[from];
        assert(tm[from as int] == ty as int);
        let ghost st1 = if (ty as int) < (bound as int) {
            resolve_visit(arena@, arena.alias_seq(), ty as int, st)
        } else {
            st
        };
        if ty < bound {
            visit(arena, ty, table, Ghost(st));
        }
        visit_payloads(arena, tys, from + 1, bound, table, Ghost(st1));
    }
}

fn visit_variants(
    arena: &TypeArena,
    variants: &Vec<crate::types::Variant>,
    from: usize,
    bound: usize,
    table: &mut NameTable,
    Ghost(st): Ghost<NameState>,
)
    requires
        arena.alias_aligned(),
        graph_wf(arena@),
        bound <= arena@.len(),
        table_models(*old(table), arena@.len() as int, st),
    ensures
        table_models(
            *final(table),
            arena@.len() as int,
            variants_pass(
                arena@,
                arena.alias_seq(),
                variants@.map_values(|v: crate::types::Variant| v@),
                from as int,
                bound as int,
                st,
            ),
        ),
    decreases bound as int, 2int, variants@.len() - from,
{
    let ghost vm = variants@.map_values(|v: crate::types::Variant| v@);
    if from < variants.len() {
        assert(vm[from as int].payloads == variants@[from as int]@.payloads);
        let ghost st1 = payloads_pass(
            arena@,
            arena.alias_seq(),
            vm[from as int].payloads,
            0,
            bound as int,
            st,
        );
        visit_payloads(arena, &variants[from].payloads, 0, bound, table, Ghost(st));
        visit_variants(arena, variants, from + 1, bound, table, Ghost(st1));
    }
}

/// Computes the resolved-name table for the run rooted at `root`: every
/// composite type reachable from the root, in first-encounter order, with
/// its alias or synthetic name.
pub fn resolve_names(arena: &TypeArena, root: usize) -> (table: NameTable)
    requires
        arena.alias_aligned(),
        graph_wf(arena@),
        root < arena@.len(),
    ensures
        table_models(
            table,
            arena@.len() as int,
            resolved_names(arena@, arena.alias_seq(), root as int),
        ),
{
    let n = arena.len();
    let mut names: Vec<Option<String>> = Vec::new();
    let mut k: usize = 0;
    while k < n
        invariant
            k <= n,
            names@.len() == k,
            forall|j: int| 0 <= j < k ==> (#[trigger] names@[j]) is None,
        decreases n - k,
    {
        names.push(None);
        k += 1;
    }
    let mut table = NameTable { order: Vec::new(), names, counter: 1 };
    let ghost st0 = NameState { order: Seq::empty(), names: Map::empty(), counter: 1 };
    proof {
        assert(st0.order =~= table.order@.map_values(|u: usize| u as int));
    }
    visit(arena, root, &mut table, Ghost(st0));
    table
}

} // verus!

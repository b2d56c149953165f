//! Capability analysis.
//!
//! For each representation this decides which derivable operation
//! capabilities are sound, independent of emission. Trivial bitwise copy
//! is legal only when every reachable slot is itself trivially copyable:
//! owned text, owned sequences and pointer-based payloads disqualify it,
//! because bitwise-copying a unique heap allocation would alias it.
//! Default construction is legal only when every slot has a default and no
//! variant selection is ambiguous: a union of two or more variants has no
//! well-defined default. Total equality, ordering and hashing are legal
//! only when no reachable slot is floating point — floating-point
//! comparison is not total — and never for the pointer-collapsed recursive
//! representation, whose derived comparison would compare addresses
//! rather than contents.
//!
//! The result is plain data: a small record of booleans the emitter
//! consumes, not a type hierarchy.

use vstd::prelude::*;

use crate::layout::variants_all_empty;
use crate::types::Field;
use crate::types::Primitive;
use crate::types::StructuralType;
use crate::types::TypeArena;
use crate::types::TypeModel;
use crate::types::Variant;
use crate::types::VariantModel;
use crate::types::graph_wf;
use crate::types::union_is_recursive;

verus! {

/// The operation capabilities a representation may soundly carry. The
/// shared behaviours — duplication, partial comparison, debug rendering —
/// are always available in some form and need no flag.
#[derive(Clone, Copy, PartialEq, Eq, Structural)]
pub struct Caps {
    /// Trivial bitwise copy.
    pub copy: bool,
    /// Default-value construction.
    pub default: bool,
    /// Total equality, total ordering and hashing.
    pub total_ord: bool,
}

/// The neutral element of capability intersection.
pub open spec fn caps_all() -> Caps {
    Caps { copy: true, default: true, total_ord: true }
}

/// The capabilities of the type registered under `i`.
pub open spec fn type_caps(g: Seq<TypeModel>, i: int) -> Caps
    decreases i, 4int, 0int,
{
    if 0 <= i < g.len() {
        match g[i] {
            TypeModel::Primitive(p) => Caps {
                copy: true,
                default: true,
                total_ord: !(p is F32 || p is F64),
            },
            TypeModel::Text => Caps { copy: false, default: true, total_ord: true },
            TypeModel::Sequence(e) => Caps {
                copy: false,
                default: true,
                total_ord: if 0 <= e < i {
                    type_caps(g, e).total_ord
                } else {
                    true
                },
            },
            TypeModel::SelfReference => Caps { copy: false, default: false, total_ord: false },
            TypeModel::Record(fields) => tys_caps(
                g,
                fields.map_values(|f: crate::types::FieldModel| f.ty),
                0,
                i,
            ),
            TypeModel::TagUnion(variants) => union_caps(g, variants, i),
        }
    } else {
        caps_all()
    }
}

/// The capabilities of a tag union, by representation strategy.
pub open spec fn union_caps(g: Seq<TypeModel>, variants: Seq<VariantModel>, bound: int) -> Caps
    decreases bound, 3int, 0int,
{
    if union_is_recursive(g, variants) {
        Caps { copy: false, default: false, total_ord: false }
    } else if variants_all_empty(variants) {
        Caps { copy: true, default: variants.len() == 1, total_ord: true }
    } else if variants.len() == 1 {
        tys_caps(g, variants[0].payloads, 0, bound)
    } else {
        Caps {
            copy: false,
            default: false,
            total_ord: variants_caps(g, variants, 0, bound).total_ord,
        }
    }
}

/// Intersection of the capabilities of the variants from `from` on.
pub open spec fn variants_caps(
    g: Seq<TypeModel>,
    variants: Seq<VariantModel>,
    from: int,
    bound: int,
) -> Caps
    decreases bound, 2int, variants.len() - from,
{
    if !(0 <= from < variants.len()) {
        caps_all()
    } else {
        let h = tys_caps(g, variants[from].payloads, 0, bound);
        let r = variants_caps(g, variants, from + 1, bound);
        Caps {
            copy: h.copy && r.copy,
            default: h.default && r.default,
            total_ord: h.total_ord && r.total_ord,
        }
    }
}

/// Intersection of the capabilities of the listed types from `from` on.
pub open spec fn tys_caps(g: Seq<TypeModel>, tys: Seq<int>, from: int, bound: int) -> Caps
    decreases bound, 1int, tys.len() - from,
{
    if !(0 <= from < tys.len()) {
        caps_all()
    } else {
        let h = if 0 <= tys[from] < bound {
            type_caps(g, tys[from])
        } else {
            caps_all()
        };
        let r = tys_caps(g, tys, from + 1, bound);
        Caps {
            copy: h.copy && r.copy,
            default: h.default && r.default,
            total_ord: h.total_ord && r.total_ord,
        }
    }
}

fn fields_caps_exec(arena: &TypeArena, fields: &Vec<Field>, from: usize, bound: usize) -> (c: Caps)
    requires
        graph_wf(arena@),
        bound <= arena@.len(),
        from <= fields@.len(),
    ensures
        c == tys_caps(
            arena@,
            fields@.map_values(|f: Field| f@).map_values(|f: crate::types::FieldModel| f.ty),
            from as int,
            bound as int,
        ),
    decreases bound as int, 1int, fields@.len() - from,
{
    let ghost tm = fields@.map_values(|f: Field| f@).map_values(
        |f: crate::types::FieldModel| f.ty,
    );
    if from >= fields.len() {
        Caps { copy: true, default: true, total_ord: true }
    } else {
        let ty = fields[from].ty;
        proof {
            assert(tm[from as int] == ty as int);
        }
        let h = if ty < bound {
            caps_of(arena, ty)
        } else {
            Caps { copy: true, default: true, total_ord: true }
        };
        let r = fields_caps_exec(arena, fields, from + 1, bound);
        Caps {
            copy: h.copy && r.copy,
            default: h.default && r.default,
            total_ord: h.total_ord && r.total_ord,
        }
    }
}

fn payloads_caps_exec(arena: &TypeArena, tys: &Vec<usize>, from: usize, bound: usize) -> (c: Caps)
    requires
        graph_wf(arena@),
        bound <= arena@.len(),
        from <= tys@.len(),
    ensures
        c == tys_caps(
            arena@,
            tys@.map_values(|p: usize| p as int),
            from as int,
            bound as int,
        ),
    decreases bound as int, 1int, tys@.len() - from,
{
    let ghost tm = tys@.map_values(|p: usize| p as int);
    if from >= tys.len() {
        Caps { copy: true, default: true, total_ord: true }
    } else {
        let ty = tys[from];
        proof {
            assert(tm[from as int] == ty as int);
        }
        let h = if ty < bound {
            caps_of(arena, ty)
        } else {
            Caps { copy: true, default: true, total_ord: true }
        };
        let r = payloads_caps_exec(arena, tys, from + 1, bound);
        Caps {
            copy: h.copy && r.copy,
            default: h.default && r.default,
            total_ord: h.total_ord && r.total_ord,
        }
    }
}

fn variants_caps_exec(arena: &TypeArena, variants: &Vec<Variant>, from: usize, bound: usize) -> (c:
    Caps)
    requires
        graph_wf(arena@),
        bound <= arena@.len(),
        from <= variants@.len(),
    ensures
        c == variants_caps(
            arena@,
            variants@.map_values(|v: Variant| v@),
            from as int,
            bound as int,
        ),
    decreases bound as int, 2int, variants@.len() - from,
{
    let ghost vm = variants@.map_values(|v: Variant| v@);
    if from >= variants.len() {
        Caps { copy: true, default: true, total_ord: true }
    } else {
        proof {
            assert(vm[from as int].payloads == variants@[from as int].payloads@.map_values(
                |p: usize| p as int,
            ));
        }
        let h = payloads_caps_exec(arena, &variants[from].payloads, 0, bound);
        let r = variants_caps_exec(arena, variants, from + 1, bound);
        Caps {
            copy: h.copy && r.copy,
            default: h.default && r.default,
            total_ord: h.total_ord && r.total_ord,
        }
    }
}

/// Computes the capability set of the type registered under `i`.
pub fn caps_of(arena: &TypeArena, i: usize) -> (c: Caps)
    requires
        graph_wf(arena@),
        i < arena@.len(),
    ensures
        c == type_caps(arena@, i as int),
    decreases i as int, 4int, 0int,
{
    let ghost spec_c = type_caps(arena@, i as int);
    let node = arena.resolve(i);
    match node {
        StructuralType::Primitive(p) => {
            let f = *p == Primitive::F32 || *p == Primitive::F64;
            let c = Caps { copy: true, default: true, total_ord: !f };
            proof {
                assert(arena@[i as int] == TypeModel::Primitive(*p));
                assert(c == spec_c);
            }
            c
        },
        StructuralType::Text => {
            let c = Caps { copy: false, default: true, total_ord: true };
            proof {
                assert(c == spec_c);
            }
            c
        },
        StructuralType::Sequence(e) => {
            let t = if *e < i {
                caps_of(arena, *e).total_ord
            } else {
                true
            };
            let c = Caps { copy: false, default: true, total_ord: t };
            proof {
                assert(c == spec_c);
            }
            c
        },
        StructuralType::SelfReference => {
            let c = Caps { copy: false, default: false, total_ord: false };
            proof {
                assert(c == spec_c);
            }
            c
        },
        StructuralType::Record(fields) => {
            let c = fields_caps_exec(arena, fields, 0, i);
            proof {
                assert(c == spec_c);
            }
            c
        },
        StructuralType::TagUnion(variants) => {
            let ghost vm = variants@.map_values(|v: Variant| v@);
            proof {
                assert(arena@[i as int] == TypeModel::TagUnion(vm));
                assert(spec_c == union_caps(arena@, vm, i as int));
            }
            let n = arena.len();
            if crate::layout::union_recursive_exec(arena, variants, n) {
                proof {
                    lemma_recursive_below_full(arena@, vm);
                }
                let c = Caps { copy: false, default: false, total_ord: false };
                proof {
                    assert(c == spec_c);
                }
                c
            } else if crate::layout::all_variants_empty(variants) {
                proof {
                    lemma_recursive_below_full(arena@, vm);
                }
                let c = Caps { copy: true, default: variants.len() == 1, total_ord: true };
                proof {
                    assert(c == spec_c);
                }
                c
            } else if variants.len() == 1 {
                proof {
                    lemma_recursive_below_full(arena@, vm);
                    assert(vm[0].payloads == variants@[0].payloads@.map_values(
                        |p: usize| p as int,
                    ));
                }
                let c = payloads_caps_exec(arena, &variants[0].payloads, 0, i);
                proof {
                    assert(c == spec_c);
                }
                c
            } else {
                proof {
                    lemma_recursive_below_full(arena@, vm);
                }
                let t = variants_caps_exec(arena, variants, 0, i);
                let c = Caps { copy: false, default: false, total_ord: t.total_ord };
                proof {
                    assert(c == spec_c);
                }
                c
            }
        },
    }
}

/// Checking self-references against the whole arena is checking them at
/// all: a self-reference is a registered node.
pub proof fn lemma_recursive_below_full(g: Seq<TypeModel>, variants: Seq<VariantModel>)
    ensures
        crate::types::union_recursive_below(g, variants, g.len() as int) == union_is_recursive(
            g,
            variants,
        ),
{
    if crate::types::union_recursive_below(g, variants, g.len() as int) {
        let j = choose|j: int|
            0 <= j < variants.len() && crate::types::variant_self_below(
                g,
                #[trigger] variants[j],
                g.len() as int,
            );
        let v = variants[j];
        let k = choose|k: int|
            0 <= k < v.payloads.len() && (#[trigger] v.payloads[k]) < g.len() as int
                && crate::types::is_self_ref(g, v.payloads[k]);
        assert(crate::types::variant_mentions_self(g, v));
    }
    if union_is_recursive(g, variants) {
        let j = choose|j: int|
            0 <= j < variants.len() && crate::types::variant_mentions_self(
                g,
                #[trigger] variants[j],
            );
        let v = variants[j];
        let k = choose|k: int|
            0 <= k < v.payloads.len() && crate::types::is_self_ref(g, #[trigger] v.payloads[k]);
        assert(v.payloads[k] < g.len() as int && crate::types::is_self_ref(g, v.payloads[k]));
        assert(crate::types::variant_self_below(g, v, g.len() as int));
    }
}

} // verus!

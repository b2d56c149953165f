//! Lexicographic ordering of names.
//!
//! Discriminant values of a tag union must not depend on the order the
//! variants were declared in source, so every representation that numbers
//! or lists variants first sorts them by tag name. This module defines the
//! lexicographic order, proves it total, transitive and antisymmetric,
//! and provides a verified sort of variants by tag name together with the
//! uniqueness of its result.

use vstd::prelude::*;
use vstd::seq_lib::group_to_multiset_ensures;

use crate::types::Variant;
use crate::types::VariantModel;

verus! {

/// Lexicographic "less than or equal" on character sequences, by Unicode
/// scalar value.
pub open spec fn lex_leq(a: Seq<char>, b: Seq<char>) -> bool
    decreases a.len(),
{
    if a.len() == 0 {
        true
    } else if b.len() == 0 {
        false
    } else if a[0] != b[0] {
        (a[0] as u32) < (b[0] as u32)
    } else {
        lex_leq(a.drop_first(), b.drop_first())
    }
}

/// The order is reflexive.
pub proof fn lemma_lex_refl(a: Seq<char>)
    ensures
        lex_leq(a, a),
    decreases a.len(),
{
    if a.len() > 0 {
        lemma_lex_refl(a.drop_first());
    }
}

/// Any two character sequences are comparable.
pub proof fn lemma_lex_total(a: Seq<char>, b: Seq<char>)
    ensures
        lex_leq(a, b) || lex_leq(b, a),
    decreases a.len(),
{
    if a.len() == 0 {
    } else if b.len() == 0 {
    } else if a[0] != b[0] {
        vstd::utf8::char_u32_cast(a[0], a[0] as u32);
        vstd::utf8::char_u32_cast(b[0], b[0] as u32);
        assert(a[0] as u32 != b[0] as u32);
    } else {
        lemma_lex_total(a.drop_first(), b.drop_first());
    }
}

/// Two sequences each at most the other are equal.
pub proof fn lemma_lex_antisym(a: Seq<char>, b: Seq<char>)
    requires
        lex_leq(a, b),
        lex_leq(b, a),
    ensures
        a == b,
    decreases a.len(),
{
    if a.len() == 0 {
        assert(b.len() == 0);
        assert(a =~= b);
    } else {
        assert(b.len() > 0);
        assert(a[0] == b[0]);
        lemma_lex_antisym(a.drop_first(), b.drop_first());
        assert(a.drop_first().len() == b.drop_first().len());
        assert(a.len() == b.len());
        assert forall|i: int| 0 <= i < a.len() implies a[i] == b[i] by {
            if i > 0 {
                assert(a[i] == a.drop_first()[i - 1]);
                assert(b[i] == b.drop_first()[i - 1]);
            }
        }
        assert(a =~= b);
    }
}

/// The order is transitive.
pub proof fn lemma_lex_trans(a: Seq<char>, b: Seq<char>, c: Seq<char>)
    requires
        lex_leq(a, b),
        lex_leq(b, c),
    ensures
        lex_leq(a, c),
    decreases a.len(),
{
    if a.len() == 0 {
    } else {
        assert(b.len() > 0);
        assert(c.len() > 0);
        if a[0] == b[0] && b[0] == c[0] {
            lemma_lex_trans(a.drop_first(), b.drop_first(), c.drop_first());
        }
    }
}

/// Comparing two sequences that agree on their first `i` characters is
/// comparing what remains.
proof fn lemma_lex_skip(a: Seq<char>, b: Seq<char>, i: int)
    requires
        0 <= i <= a.len(),
        i <= b.len(),
        forall|j: int| 0 <= j < i ==> a[j] == b[j],
    ensures
        lex_leq(a, b) == lex_leq(a.skip(i), b.skip(i)),
    decreases i,
{
    if i == 0 {
        assert(a.skip(0) =~= a);
        assert(b.skip(0) =~= b);
    } else {
        assert(a.len() > 0);
        assert(b.len() > 0);
        assert(a[0] == b[0]);
        assert(a.drop_first().skip(i - 1) =~= a.skip(i));
        assert(b.drop_first().skip(i - 1) =~= b.skip(i));
        lemma_lex_skip(a.drop_first(), b.drop_first(), i - 1);
    }
}

/// Executable lexicographic comparison of two names.
pub fn str_lex_leq(a: &str, b: &str) -> (r: bool)
    ensures
        r == lex_leq(a@, b@),
{
    let alen = a.unicode_len();
    let blen = b.unicode_len();
    let mut i: usize = 0;
    loop
        invariant
            i <= alen,
            i <= blen,
            alen == a@.len(),
            blen == b@.len(),
            forall|j: int| 0 <= j < i ==> a@[j] == b@[j],
        decreases alen - i,
    {
        if i >= alen {
            proof {
                lemma_lex_skip(a@, b@, i as int);
                assert(a@.skip(i as int).len() == 0);
            }
            return true;
        }
        if i >= blen {
            proof {
                lemma_lex_skip(a@, b@, i as int);
                assert(b@.skip(i as int).len() == 0);
                assert(a@.skip(i as int).len() > 0);
            }
            return false;
        }
        let ca = a.get_char(i);
        let cb = b.get_char(i);
        if ca != cb {
            proof {
                lemma_lex_skip(a@, b@, i as int);
                assert(a@.skip(i as int)[0] == ca);
                assert(b@.skip(i as int)[0] == cb);
            }
            return (ca as u32) < (cb as u32);
        }
        i += 1;
    }
}

/// Order of variants: by tag name.
pub open spec fn variant_leq(a: VariantModel, b: VariantModel) -> bool {
    lex_leq(a.name, b.name)
}

/// The variants stand in alphabetical order of their tag names.
pub open spec fn variants_sorted(s: Seq<VariantModel>) -> bool {
    forall|i: int, j: int| 0 <= i < j < s.len() ==> variant_leq(#[trigger] s[i], #[trigger] s[j])
}

/// No two variants carry the same tag name.
pub open spec fn distinct_variant_names(s: Seq<VariantModel>) -> bool {
    forall|i: int, j: int|
        0 <= i < j < s.len() ==> (#[trigger] s[i]).name != (#[trigger] s[j]).name
}

/// The models of a vector of variants.
pub open spec fn variant_models(s: Seq<Variant>) -> Seq<VariantModel> {
    s.map_values(|v: Variant| v@)
}

/// Sorts the variants into alphabetical order of their tag names. The
/// result is a permutation of the input.
pub fn sort_variants(arr: &mut Vec<Variant>)
    ensures
        final(arr)@.len() == old(arr)@.len(),
        variants_sorted(variant_models(final(arr)@)),
        variant_models(final(arr)@).to_multiset() == variant_models(old(arr)@).to_multiset(),
{
    broadcast use group_to_multiset_ensures, vstd::multiset::group_multiset_axioms;

    let ghost orig = variant_models(arr@);
    let mut i: usize = 1;
    while i < arr.len()
        invariant
            1 <= i,
            i <= arr@.len() || arr@.len() < 1,
            variant_models(arr@).to_multiset() == orig.to_multiset(),
            i <= arr@.len() ==> variants_sorted(variant_models(arr@).take(i as int)),
            arr@.len() == old(arr)@.len(),
        decreases arr@.len() - i,
    {
        let ghost m = variant_models(arr@);
        let mut pos: usize = 0;
        while pos < i && str_lex_leq(arr[pos].name.as_str(), arr[i].name.as_str())
            invariant
                0 <= pos <= i,
                i < arr@.len(),
                m == variant_models(arr@),
                forall|k: int| 0 <= k < pos ==> variant_leq(#[trigger] m[k], m[i as int]),
            decreases i - pos,
        {
            pos += 1;
        }
        proof {
            if pos < i {
                lemma_lex_total(m[pos as int].name, m[i as int].name);
                assert(variant_leq(m[i as int], m[pos as int]));
            } else {
                lemma_lex_refl(m[i as int].name);
                assert(variant_leq(m[i as int], m[pos as int]));
            }
        }
        let x = arr.remove(i);
        arr.insert(pos, x);
        proof {
            let n = variant_models(arr@);
            let p = pos as int;
            let q = i as int;
            assert(0 <= q < m.len());
            assert(n =~= m.remove(q).insert(p, m[q]));
            // Taking the moved element out and putting it back leaves the
            // multiset of variants unchanged.
            vstd::seq_lib::to_multiset_remove(m, q);
            vstd::seq_lib::to_multiset_insert(m.remove(q), p, m[q]);
            assert(m.remove(q).to_multiset() == m.to_multiset().remove(m[q]));
            assert(m.remove(q).insert(p, m[q]).to_multiset() == m.remove(q).to_multiset().insert(
                m[q],
            ));
            assert(m.contains(m[q]));
            vstd::seq_lib::to_multiset_contains(m, m[q]);
            assert(m.to_multiset().count(m[q]) > 0);
            assert forall|x: VariantModel| n.to_multiset().count(x) == m.to_multiset().count(
                x,
            ) by {}
            assert(n.to_multiset() =~= m.to_multiset());
            // The freshly placed element sits between its neighbours.
            assert forall|s: int, t: int|
                0 <= s < t < i + 1 implies variant_leq(#[trigger] n[s], #[trigger] n[t]) by {
                if t < p {
                    assert(n[s] == m[s] && n[t] == m[t]);
                } else if t == p {
                    assert(n[s] == m[s]);
                    assert(n[t] == m[q]);
                } else if s < p {
                    assert(n[s] == m[s] && n[t] == m[t - 1]);
                    if t - 1 >= p {
                        if s < t - 1 {
                        } else {
                            assert(s == t - 1 && s < p);
                            assert(false);
                        }
                    }
                } else if s == p {
                    assert(n[s] == m[q] && n[t] == m[t - 1]);
                    assert(variant_leq(m[q], m[p]));
                    if t - 1 == p {
                    } else {
                        assert(m.take(q)[p] == m[p]);
                        assert(m.take(q)[t - 1] == m[t - 1]);
                        assert(variant_leq(m[p], m[t - 1]));
                        lemma_lex_trans(m[q].name, m[p].name, m[t - 1].name);
                    }
                } else {
                    assert(n[s] == m[s - 1] && n[t] == m[t - 1]);
                }
            }
            assert(variants_sorted(n.take(i + 1)));
        }
        i += 1;
    }
    proof {
        if arr@.len() >= 1 {
            assert(variant_models(arr@).take(arr@.len() as int) =~= variant_models(arr@));
        }
        assert(variants_sorted(variant_models(arr@)));
    }
}

/// Two alphabetically sorted variant lists with distinct tag names that
/// hold the same variants are the same list: sorting hides the declaration
/// order completely.
pub proof fn lemma_sorted_variants_unique(a: Seq<VariantModel>, b: Seq<VariantModel>)
    requires
        variants_sorted(a),
        variants_sorted(b),
        distinct_variant_names(a),
        distinct_variant_names(b),
        a.to_multiset() == b.to_multiset(),
    ensures
        a == b,
    decreases a.len(),
{
    broadcast use group_to_multiset_ensures, vstd::multiset::group_multiset_axioms;

    assert(a.len() == a.to_multiset().len());
    assert(b.len() == b.to_multiset().len());
    if a.len() == 0 {
        assert(a =~= b);
    } else {
        assert(b.len() == a.len());
        assert(a.contains(a[0]));
        assert(a.to_multiset().count(a[0]) > 0);
        assert(b.to_multiset().count(a[0]) > 0);
        assert(b.contains(a[0]));
        let bi = choose|bi: int| 0 <= bi < b.len() && b[bi] == a[0];
        assert(b.contains(b[0]));
        assert(b.to_multiset().count(b[0]) > 0);
        assert(a.to_multiset().count(b[0]) > 0);
        assert(a.contains(b[0]));
        let aj = choose|aj: int| 0 <= aj < a.len() && a[aj] == b[0];
        if bi > 0 {
            assert(variant_leq(b[0], b[bi]));
        } else {
            lemma_lex_refl(b[0].name);
        }
        if aj > 0 {
            assert(variant_leq(a[0], a[aj]));
        } else {
            lemma_lex_refl(a[0].name);
        }
        lemma_lex_antisym(a[0].name, b[0].name);
        assert(a[0].name == b[0].name);
        assert(bi == 0);
        assert(a[0] == b[0]);
        let ar = a.drop_first();
        let br = b.drop_first();
        assert(ar =~= a.remove(0));
        assert(br =~= b.remove(0));
        assert(ar.to_multiset() == a.to_multiset().remove(a[0]));
        assert(br.to_multiset() == b.to_multiset().remove(b[0]));
        assert(ar.to_multiset() == br.to_multiset());
        assert(variants_sorted(ar)) by {
            assert forall|s: int, t: int|
                0 <= s < t < ar.len() implies variant_leq(#[trigger] ar[s], #[trigger] ar[t]) by {
                assert(ar[s] == a[s + 1] && ar[t] == a[t + 1]);
            }
        }
        assert(variants_sorted(br)) by {
            assert forall|s: int, t: int|
                0 <= s < t < br.len() implies variant_leq(#[trigger] br[s], #[trigger] br[t]) by {
                assert(br[s] == b[s + 1] && br[t] == b[t + 1]);
            }
        }
        assert(distinct_variant_names(ar)) by {
            assert forall|s: int, t: int|
                0 <= s < t < ar.len() implies (#[trigger] ar[s]).name != (#[trigger] ar[t]).name by {
                assert(ar[s] == a[s + 1] && ar[t] == a[t + 1]);
            }
        }
        assert(distinct_variant_names(br)) by {
            assert forall|s: int, t: int|
                0 <= s < t < br.len() implies (#[trigger] br[s]).name != (#[trigger] br[t]).name by {
                assert(br[s] == b[s + 1] && br[t] == b[t + 1]);
            }
        }
        lemma_sorted_variants_unique(ar, br);
        assert forall|i: int| 0 <= i < a.len() implies a[i] == b[i] by {
            if i > 0 {
                assert(a[i] == ar[i - 1]);
                assert(b[i] == br[i - 1]);
            }
        }
        assert(a =~= b);
    }
}

/// Inserts a variant behind every variant that precedes it alphabetically.
pub open spec fn insert_variant(x: VariantModel, s: Seq<VariantModel>) -> Seq<VariantModel>
    decreases s.len(),
{
    if s.len() == 0 {
        seq![x]
    } else if variant_leq(s[0], x) {
        seq![s[0]] + insert_variant(x, s.drop_first())
    } else {
        seq![x] + s
    }
}

/// The alphabetical order of a variant list, as a function of the list:
/// the reference ordering every representation that numbers variants uses.
pub open spec fn sort_variants_spec(s: Seq<VariantModel>) -> Seq<VariantModel>
    decreases s.len(),
{
    if s.len() == 0 {
        Seq::empty()
    } else {
        insert_variant(s.last(), sort_variants_spec(s.drop_last()))
    }
}

proof fn lemma_insert_variant_props(x: VariantModel, s: Seq<VariantModel>)
    requires
        variants_sorted(s),
    ensures
        variants_sorted(insert_variant(x, s)),
        insert_variant(x, s).to_multiset() == s.to_multiset().insert(x),
        insert_variant(x, s).len() == s.len() + 1,
    decreases s.len(),
{
    broadcast use group_to_multiset_ensures, vstd::multiset::group_multiset_axioms;

    let r = insert_variant(x, s);
    if s.len() == 0 {
        assert(r =~= Seq::empty().insert(0, x));
        vstd::seq_lib::to_multiset_insert(Seq::empty(), 0, x);
        assert(Seq::<VariantModel>::empty().to_multiset() =~= s.to_multiset());
    } else if variant_leq(s[0], x) {
        assert(variants_sorted(s.drop_first())) by {
            assert forall|i: int, j: int|
                0 <= i < j < s.drop_first().len() implies variant_leq(
                #[trigger] s.drop_first()[i],
                #[trigger] s.drop_first()[j],
            ) by {
                assert(s.drop_first()[i] == s[i + 1]);
                assert(s.drop_first()[j] == s[j + 1]);
            }
        }
        lemma_insert_variant_props(x, s.drop_first());
        let t = insert_variant(x, s.drop_first());
        assert(r =~= t.insert(0, s[0]));
        vstd::seq_lib::to_multiset_insert(t, 0, s[0]);
        assert(s =~= s.drop_first().insert(0, s[0]));
        vstd::seq_lib::to_multiset_insert(s.drop_first(), 0, s[0]);
        assert(r.to_multiset() =~= s.to_multiset().insert(x));
        assert forall|i: int, j: int| 0 <= i < j < r.len() implies variant_leq(
            #[trigger] r[i],
            #[trigger] r[j],
        ) by {
            if i == 0 {
                assert(r[j] == t[j - 1]);
                assert(t.contains(t[j - 1]));
                assert(t.to_multiset().count(t[j - 1]) > 0);
                assert(s.drop_first().to_multiset().insert(x).count(t[j - 1]) > 0);
                if t[j - 1] == x {
                    assert(variant_leq(s[0], x));
                } else {
                    assert(s.drop_first().to_multiset().count(t[j - 1]) > 0);
                    assert(s.drop_first().contains(t[j - 1]));
                    let w = choose|w: int|
                        0 <= w < s.drop_first().len() && s.drop_first()[w] == t[j - 1];
                    assert(s.drop_first()[w] == s[w + 1]);
                    if w + 1 > 0 {
                        assert(variant_leq(s[0], s[w + 1]));
                    }
                }
            } else {
                assert(r[i] == t[i - 1]);
                assert(r[j] == t[j - 1]);
            }
        }
    } else {
        assert(r =~= s.insert(0, x));
        vstd::seq_lib::to_multiset_insert(s, 0, x);
        lemma_lex_total(s[0].name, x.name);
        assert(variant_leq(x, s[0]));
        assert forall|i: int, j: int| 0 <= i < j < r.len() implies variant_leq(
            #[trigger] r[i],
            #[trigger] r[j],
        ) by {
            if i == 0 {
                assert(r[j] == s[j - 1]);
                if j - 1 > 0 {
                    assert(variant_leq(s[0], s[j - 1]));
                    lemma_lex_trans(x.name, s[0].name, s[j - 1].name);
                }
            } else {
                assert(r[i] == s[i - 1]);
                assert(r[j] == s[j - 1]);
            }
        }
    }
}

/// The alphabetical order is sorted and holds exactly the given variants.
pub proof fn lemma_sort_variants_props(s: Seq<VariantModel>)
    ensures
        variants_sorted(sort_variants_spec(s)),
        sort_variants_spec(s).to_multiset() == s.to_multiset(),
        sort_variants_spec(s).len() == s.len(),
    decreases s.len(),
{
    broadcast use group_to_multiset_ensures;

    if s.len() == 0 {
        assert(sort_variants_spec(s) =~= Seq::empty());
        assert(s.to_multiset() =~= Seq::<VariantModel>::empty().to_multiset());
    } else {
        lemma_sort_variants_props(s.drop_last());
        lemma_insert_variant_props(s.last(), sort_variants_spec(s.drop_last()));
        assert(s =~= s.drop_last().push(s.last()));
        assert(s.drop_last().push(s.last()).to_multiset() == s.drop_last().to_multiset().insert(
            s.last(),
        ));
    }
}

/// Distinct tag names survive any permutation.
pub proof fn lemma_distinct_names_permutation(a: Seq<VariantModel>, b: Seq<VariantModel>)
    requires
        distinct_variant_names(a),
        a.to_multiset() == b.to_multiset(),
    ensures
        distinct_variant_names(b),
{
    broadcast use group_to_multiset_ensures, vstd::multiset::group_multiset_axioms;

    assert forall|i: int, j: int|
        0 <= i < j < b.len() implies (#[trigger] b[i]).name != (#[trigger] b[j]).name by {
        if b[i].name == b[j].name {
            assert(b.contains(b[i]));
            assert(b.to_multiset().count(b[i]) > 0);
            assert(a.to_multiset().count(b[i]) > 0);
            assert(a.contains(b[i]));
            let ai = choose|ai: int| 0 <= ai < a.len() && a[ai] == b[i];
            if b[i] == b[j] {
                // The same variant twice: it occurs twice in the multiset,
                // so twice among the declared variants too.
                assert(b.remove(i).to_multiset() == b.to_multiset().remove(b[i]));
                assert(b.remove(i)[j - 1] == b[j]);
                assert(b.remove(i).contains(b[j]));
                assert(b.remove(i).to_multiset().count(b[j]) > 0);
                assert(b.to_multiset().count(b[i]) >= 2);
                assert(a.to_multiset().count(b[i]) >= 2);
                assert(a.remove(ai).to_multiset() == a.to_multiset().remove(a[ai]));
                assert(a.remove(ai).to_multiset().count(b[i]) > 0);
                assert(a.remove(ai).contains(b[i]));
                let k = choose|k: int| 0 <= k < a.remove(ai).len() && a.remove(ai)[k] == b[i];
                if k < ai {
                    assert(a[k] == b[i]);
                    assert(a[k].name == a[ai].name);
                } else {
                    assert(a[k + 1] == b[i]);
                    assert(a[k + 1].name == a[ai].name);
                }
                assert(false);
            } else {
                assert(b.contains(b[j]));
                assert(b.to_multiset().count(b[j]) > 0);
                assert(a.to_multiset().count(b[j]) > 0);
                assert(a.contains(b[j]));
                let aj = choose|aj: int| 0 <= aj < a.len() && a[aj] == b[j];
                assert(ai != aj);
                assert(a[ai].name == a[aj].name);
                assert(false);
            }
        }
    }
}

/// Any alphabetically sorted rearrangement of variants with distinct tag
/// names is the one alphabetical order.
pub proof fn lemma_sort_variants_canonical(vm: Seq<VariantModel>, out: Seq<VariantModel>)
    requires
        distinct_variant_names(vm),
        variants_sorted(out),
        out.to_multiset() == vm.to_multiset(),
    ensures
        out == sort_variants_spec(vm),
{
    lemma_sort_variants_props(vm);
    lemma_distinct_names_permutation(vm, out);
    lemma_distinct_names_permutation(vm, sort_variants_spec(vm));
    lemma_sorted_variants_unique(out, sort_variants_spec(vm));
}

} // verus!

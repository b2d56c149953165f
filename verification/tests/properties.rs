//! Scenario tests for the stated properties of the generator, plus the
//! diagnostic text helpers.

use roc_bindgen::diagnostics::hint_for_private_tag_name;
use roc_bindgen::diagnostics::hint_for_tag_name;
use roc_bindgen::diagnostics::note_for_record_type_indent;
use roc_bindgen::diagnostics::note_for_tag_union_type_indent;
use roc_bindgen::diagnostics::next_line_starts_with_close_curly;
use roc_bindgen::diagnostics::next_line_starts_with_close_square_bracket;
use roc_bindgen::diagnostics::starts_with_keyword;
use roc_bindgen::diagnostics::what_is_next;
use roc_bindgen::diagnostics::Next;
use roc_bindgen::diagnostics::to_keyword_region;
use roc_bindgen::emit::write_types;
use roc_bindgen::types::Field;
use roc_bindgen::types::Primitive;
use roc_bindgen::types::StructuralType;
use roc_bindgen::types::TypeArena;
use roc_bindgen::types::Variant;

fn field(name: &str, ty: usize) -> Field {
    Field { name: name.to_string(), ty }
}

fn variant(name: &str, payloads: Vec<usize>) -> Variant {
    Variant { name: name.to_string(), payloads }
}

/// Descending size with a tie: the tie keeps declaration order.
#[test]
fn record_size_tie_keeps_declaration_order() {
    let mut arena = TypeArena::new();
    let u32_id = arena.register(StructuralType::Primitive(Primitive::U32), None);
    let u64_id = arena.register(StructuralType::Primitive(Primitive::U64), None);
    let root = arena.register(
        StructuralType::Record(vec![
            field("first", u32_id),
            field("second", u32_id),
            field("wide", u64_id),
        ]),
        Some("Tied".to_string()),
    );
    let out = write_types(&arena, root);
    assert_eq!(
        out,
        "\n#[derive(Clone, Copy, Debug, Default, Eq, Ord, Hash, PartialEq, PartialOrd)]\n#[repr(C)]\npub struct Tied {\n    wide: u64,\n    first: u32,\n    second: u32,\n}\n"
    );
}

/// A record with no fields still gets a well-formed declaration.
#[test]
fn empty_record() {
    let mut arena = TypeArena::new();
    let root = arena.register(StructuralType::Record(vec![]), Some("Empty".to_string()));
    let out = write_types(&arena, root);
    assert_eq!(
        out,
        "\n#[derive(Clone, Copy, Debug, Default, Eq, Ord, Hash, PartialEq, PartialOrd)]\n#[repr(C)]\npub struct Empty {\n}\n"
    );
}

/// Running generation twice on the same graph gives byte-identical text.
#[test]
fn generation_is_idempotent() {
    let mut arena = TypeArena::new();
    let str_id = arena.register(StructuralType::Text, None);
    let u128_id = arena.register(StructuralType::Primitive(Primitive::U128), None);
    let root = arena.register(
        StructuralType::TagUnion(vec![
            variant("Foo", vec![str_id]),
            variant("Bar", vec![u128_id]),
            variant("Baz", vec![]),
        ]),
        Some("Twice".to_string()),
    );
    let first = write_types(&arena, root);
    let second = write_types(&arena, root);
    assert_eq!(first, second);
}

/// Permuting the declared variant order never changes the emitted
/// discriminant-to-name mapping, nor any other byte of the output.
#[test]
fn reordered_variants_same_output() {
    let mut one = TypeArena::new();
    let a = one.register(
        StructuralType::TagUnion(vec![
            variant("Blah", vec![]),
            variant("Foo", vec![]),
            variant("Bar", vec![]),
        ]),
        Some("MyTagUnion".to_string()),
    );
    let mut two = TypeArena::new();
    let b = two.register(
        StructuralType::TagUnion(vec![
            variant("Foo", vec![]),
            variant("Bar", vec![]),
            variant("Blah", vec![]),
        ]),
        Some("MyTagUnion".to_string()),
    );
    assert_eq!(write_types(&one, a), write_types(&two, b));
}

/// Permuting the variants of a payload-carrying union keeps the whole
/// emission, discriminants included.
#[test]
fn reordered_payload_variants_same_output() {
    let mut one = TypeArena::new();
    let s1 = one.register(StructuralType::Text, None);
    let a = one.register(
        StructuralType::TagUnion(vec![
            variant("Foo", vec![s1]),
            variant("Bar", vec![]),
        ]),
        Some("Shuffled".to_string()),
    );
    let mut two = TypeArena::new();
    let s2 = two.register(StructuralType::Text, None);
    let b = two.register(
        StructuralType::TagUnion(vec![
            variant("Bar", vec![]),
            variant("Foo", vec![s2]),
        ]),
        Some("Shuffled".to_string()),
    );
    assert_eq!(write_types(&one, a), write_types(&two, b));
}

/// Discriminant values reach two digits when the union has more than ten
/// variants, still numbered by alphabetical rank.
#[test]
fn two_digit_discriminants() {
    let names = ["Aa", "Bb", "Cc", "Dd", "Ee", "Ff", "Gg", "Hh", "Ii", "Jj", "Kk"];
    let mut arena = TypeArena::new();
    let root = arena.register(
        StructuralType::TagUnion(names.iter().map(|n| variant(n, vec![])).collect()),
        Some("Wide".to_string()),
    );
    let out = write_types(&arena, root);
    assert!(out.contains("    Jj = 9,\n    Kk = 10,\n"));
}

/// The accessors of a tagged union are documented as unchecked: the text
/// tells the caller to examine the discriminant first, and the warning
/// stands at every payload accessor.
#[test]
fn accessors_carry_discriminant_warning() {
    let mut arena = TypeArena::new();
    let str_id = arena.register(StructuralType::Text, None);
    let root = arena.register(
        StructuralType::TagUnion(vec![
            variant("Some", vec![str_id]),
            variant("None", vec![]),
        ]),
        Some("Opt".to_string()),
    );
    let out = write_types(&arena, root);
    let warning = "(always examine .tag() first to make sure this is the correct variant!)";
    assert_eq!(out.matches(warning).count(), 2);
    assert!(out.contains("Unsafely assume the given Opt has a .tag() of Some"));
}

/// A union holding a float payload keeps partial comparison but loses the
/// total comparisons: no Eq or Ord implementation is emitted.
#[test]
fn float_payload_drops_total_comparisons() {
    let mut arena = TypeArena::new();
    let f64_id = arena.register(StructuralType::Primitive(Primitive::F64), None);
    let root = arena.register(
        StructuralType::TagUnion(vec![
            variant("Exact", vec![]),
            variant("Rough", vec![f64_id]),
        ]),
        Some("Measure".to_string()),
    );
    let out = write_types(&arena, root);
    assert!(out.contains("impl PartialEq for Measure"));
    assert!(out.contains("impl PartialOrd for Measure"));
    assert!(!out.contains("impl Eq for Measure"));
    assert!(!out.contains("impl Ord for Measure"));
}

/// The null-discriminant representation stores no discriminant field: the
/// struct holds one pointer and nothing else, and the discriminant is
/// read from pointer nullity.
#[test]
fn recursive_union_has_no_discriminant_field() {
    let mut arena = TypeArena::new();
    let str_id = arena.register(StructuralType::Text, None);
    let self_id = arena.register(StructuralType::SelfReference, None);
    let root = arena.register(
        StructuralType::TagUnion(vec![
            variant("Nil", vec![]),
            variant("Cons", vec![str_id, self_id]),
        ]),
        Some("StrConsList".to_string()),
    );
    let out = write_types(&arena, root);
    assert!(out.contains(
        "pub struct StrConsList {\n    pointer: *mut core::mem::ManuallyDrop<roc_std::RocStr>,\n}"
    ));
    assert!(!out.contains("tag: tag_StrConsList"));
    assert!(out.contains("if self.pointer.is_null()"));
}

#[test]
fn note_texts() {
    assert_eq!(note_for_record_type_indent(), "I may be confused by indentation");
    assert_eq!(note_for_tag_union_type_indent(), "I may be confused by indentation");
}

#[test]
fn hint_texts() {
    assert_eq!(
        hint_for_tag_name(),
        "Tag names start with an uppercase letter, like Err or Green."
    );
    assert_eq!(
        hint_for_private_tag_name(),
        "Private tag names start with a `@` symbol followed by an uppercase letter, like @UID or @SecretKey."
    );
}

#[test]
fn keyword_at_line_start() {
    assert!(starts_with_keyword("if x > 2", "if"));
    assert!(starts_with_keyword("if", "if"));
    assert!(starts_with_keyword("if)", "if"));
    assert!(!starts_with_keyword("ifx", "if"));
    assert!(!starts_with_keyword("if2", "if"));
    assert!(!starts_with_keyword("when x", "if"));
    assert!(!starts_with_keyword("i", "if"));
}

#[test]
fn keyword_region_span() {
    let r = to_keyword_region(5, 3, "then");
    assert_eq!(r.start_line, 5);
    assert_eq!(r.end_line, 5);
    assert_eq!(r.start_col, 3);
    assert_eq!(r.end_col, 7);
}

#[test]
fn close_curly_on_next_line() {
    let lines = vec!["record = {".to_string(), "   }".to_string()];
    assert_eq!(next_line_starts_with_close_curly(&lines, 0), Some((1, 3)));
    assert_eq!(next_line_starts_with_close_curly(&lines, 1), None);
    let other = vec!["a".to_string(), "  x}".to_string()];
    assert_eq!(next_line_starts_with_close_curly(&other, 0), None);
}

#[test]
fn close_square_bracket_on_next_line() {
    let lines = vec!["list = [".to_string(), "  ]".to_string()];
    assert_eq!(next_line_starts_with_close_square_bracket(&lines, 0), Some((1, 2)));
    assert_eq!(next_line_starts_with_close_square_bracket(&lines, 5), None);
}

#[test]
fn next_token_kinds() {
    let lines = vec!["x = if y".to_string(), "then)".to_string()];
    let kws: Vec<String> = vec!["if".to_string(), "then".to_string(), "else".to_string()];
    assert_eq!(what_is_next(&lines, &kws, 0, 4), Next::Keyword(0));
    assert_eq!(what_is_next(&lines, &kws, 1, 0), Next::Keyword(1));
    assert_eq!(what_is_next(&lines, &kws, 1, 4), Next::Close(')'));
    assert_eq!(what_is_next(&lines, &kws, 0, 0), Next::Other(Some('x')));
    assert_eq!(what_is_next(&lines, &kws, 0, 9), Next::Other(None));
    assert_eq!(what_is_next(&lines, &kws, 7, 0), Next::Other(None));
}

/// A single-variant enumeration still has an unambiguous default.
#[test]
fn single_variant_enumeration_keeps_default() {
    let mut arena = TypeArena::new();
    let root = arena.register(
        StructuralType::TagUnion(vec![variant("Only", vec![])]),
        Some("Single".to_string()),
    );
    assert_eq!(
        write_types(&arena, root),
        "\n#[derive(Clone, Copy, Debug, Default, Eq, Ord, Hash, PartialEq, PartialOrd)]\n#[repr(u8)]\npub enum Single {\n    Only = 0,\n}\n"
    );
}

/// A record holding a multi-variant union loses default construction,
/// and the anonymous union is named and emitted after its holder.
#[test]
fn union_field_disables_default() {
    let mut arena = TypeArena::new();
    let union_id = arena.register(
        StructuralType::TagUnion(vec![
            variant("A", vec![]),
            variant("B", vec![]),
            variant("C", vec![]),
        ]),
        None,
    );
    let u16_id = arena.register(StructuralType::Primitive(Primitive::U16), None);
    let root = arena.register(
        StructuralType::Record(vec![field("t", union_id), field("n", u16_id)]),
        Some("Holder".to_string()),
    );
    assert_eq!(
        write_types(&arena, root),
        "\n#[derive(Clone, Copy, Debug, Eq, Ord, Hash, PartialEq, PartialOrd)]\n#[repr(C)]\npub struct Holder {\n    n: u16,\n    t: R1,\n}\n\n#[derive(Clone, Copy, Debug, Eq, Ord, Hash, PartialEq, PartialOrd)]\n#[repr(u8)]\npub enum R1 {\n    A = 0,\n    B = 1,\n    C = 2,\n}\n"
    );
}

/// A type referenced from two fields is named and emitted exactly once.
#[test]
fn shared_alias_emitted_once() {
    let mut arena = TypeArena::new();
    let u8_id = arena.register(StructuralType::Primitive(Primitive::U8), None);
    let inner = arena.register(
        StructuralType::Record(vec![field("v", u8_id)]),
        Some("Inner".to_string()),
    );
    let root = arena.register(
        StructuralType::Record(vec![field("a", inner), field("b", inner)]),
        Some("Pair".to_string()),
    );
    assert_eq!(
        write_types(&arena, root),
        "\n#[derive(Clone, Copy, Debug, Default, Eq, Ord, Hash, PartialEq, PartialOrd)]\n#[repr(C)]\npub struct Pair {\n    a: Inner,\n    b: Inner,\n}\n\n#[derive(Clone, Copy, Debug, Default, Eq, Ord, Hash, PartialEq, PartialOrd)]\n#[repr(C)]\npub struct Inner {\n    v: u8,\n}\n"
    );
}

/// An anonymous record behind a sequence handle is still discovered and
/// named on the walk.
#[test]
fn anonymous_element_behind_sequence() {
    let mut arena = TypeArena::new();
    let u8_id = arena.register(StructuralType::Primitive(Primitive::U8), None);
    let elem = arena.register(StructuralType::Record(vec![field("q", u8_id)]), None);
    let list = arena.register(StructuralType::Sequence(elem), None);
    let root = arena.register(
        StructuralType::Record(vec![field("xs", list)]),
        None,
    );
    assert_eq!(
        write_types(&arena, root),
        "\n#[derive(Clone, Debug, Default, Eq, Ord, Hash, PartialEq, PartialOrd)]\n#[repr(C)]\npub struct R1 {\n    xs: roc_std::RocList<R2>,\n}\n\n#[derive(Clone, Copy, Debug, Default, Eq, Ord, Hash, PartialEq, PartialOrd)]\n#[repr(C)]\npub struct R2 {\n    q: u8,\n}\n"
    );
}

/// A named alias does not consume a synthetic-name slot: the first
/// anonymous child of an aliased type is still the first synthetic name.
#[test]
fn alias_does_not_consume_counter_slot() {
    let mut arena = TypeArena::new();
    let u8_id = arena.register(StructuralType::Primitive(Primitive::U8), None);
    let inner = arena.register(StructuralType::Record(vec![field("w", u8_id)]), None);
    let root = arena.register(
        StructuralType::Record(vec![field("i", inner)]),
        Some("Top".to_string()),
    );
    assert_eq!(
        write_types(&arena, root),
        "\n#[derive(Clone, Copy, Debug, Default, Eq, Ord, Hash, PartialEq, PartialOrd)]\n#[repr(C)]\npub struct Top {\n    i: R1,\n}\n\n#[derive(Clone, Copy, Debug, Default, Eq, Ord, Hash, PartialEq, PartialOrd)]\n#[repr(C)]\npub struct R1 {\n    w: u8,\n}\n"
    );
}

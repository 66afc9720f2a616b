//! The suggested return type.
use biome_rowan::{TextRange, TextSize};
use misleading_return_type::describe::{
    can_render_inferred, can_render_narrowed, literal_content_ok, literal_display_len,
    variant_display_len, write_inferred, write_literal, write_narrowed, write_variant,
    MAX_DESCRIPTION_LENGTH, SEPARATOR,
};
use misleading_return_type::rule::{diagnostic, DescriptionKind, RuleState};
use misleading_return_type::text::{chars_of, text_contains, text_len};
use misleading_return_type::types::{Literal, TypeData, TypeGraph, TypeId, TypeNode};

fn graph(types: Vec<TypeData>) -> TypeGraph {
    let scope = (0..types.len()).map(Some).collect();
    let nodes = types.into_iter().map(|data| TypeNode { scope: 0, data }).collect();
    TypeGraph::new(nodes, vec![scope]).unwrap()
}

fn string(text: &str) -> TypeData {
    TypeData::Literal(Literal::String(text.to_string()))
}

fn number(text: &str) -> TypeData {
    TypeData::Literal(Literal::Number(text.to_string()))
}

fn union(variants: &[TypeId]) -> TypeData {
    TypeData::Union { variants: variants.to_vec() }
}

fn state(returns: &[TypeId], effective_return_ty: TypeId, has_any_const_return: bool) -> RuleState {
    RuleState {
        annotation_range: TextRange::new(TextSize::from(3), TextSize::from(9)),
        returns: returns.to_vec(),
        effective_return_ty,
        has_any_const_return,
    }
}

fn suggestion(g: &TypeGraph, s: &RuleState) -> String {
    let mut out = String::new();
    s.fmt(g, &mut out);
    out
}

#[test]
fn lengths_are_in_bytes() {
    assert_eq!(text_len(""), 0);
    assert_eq!(text_len("abc"), 3);
    assert_eq!(text_len("\u{e9}\u{1f600}"), 6);
    assert_eq!(chars_of("\u{e9}b"), vec!['\u{e9}', 'b']);
}

#[test]
fn patterns_are_found_anywhere() {
    let contains = |text: &str, pattern: &str| text_contains(&chars_of(text), pattern);
    assert!(contains("a...", "..."));
    assert!(contains("...a", "..."));
    assert!(contains("a....b", "..."));
    assert!(!contains("a..b.", "..."));
    assert!(!contains("..", "..."));
    assert!(contains("x", ""));
    assert!(contains("", ""));
}

#[test]
fn literals_are_written_as_in_the_source() {
    let written = |literal: &Literal| {
        let mut out = "> ".to_string();
        write_literal(&mut out, literal);
        out
    };
    assert_eq!(written(&Literal::String("idle".to_string())), "> \"idle\"");
    assert_eq!(written(&Literal::Number("200".to_string())), "> 200");
    assert_eq!(written(&Literal::Boolean(true)), "> true");
    assert_eq!(written(&Literal::Boolean(false)), "> false");
    assert_eq!(written(&Literal::BigInt("1n".to_string())), "> ");
    assert_eq!(written(&Literal::Template("x".to_string())), "> ");
    assert_eq!(written(&Literal::Object(vec![])), "> ");
}

#[test]
fn literal_lengths_count_quotes_and_bytes() {
    assert_eq!(literal_display_len(&Literal::String("idle".to_string())), Some(6));
    assert_eq!(literal_display_len(&Literal::String("\u{e9}".to_string())), Some(4));
    assert_eq!(literal_display_len(&Literal::Number("404".to_string())), Some(3));
    assert_eq!(literal_display_len(&Literal::Boolean(true)), Some(4));
    assert_eq!(literal_display_len(&Literal::Boolean(false)), Some(5));
    assert_eq!(literal_display_len(&Literal::BigInt("1n".to_string())), None);
    assert_eq!(literal_display_len(&Literal::Template("x".to_string())), None);
}

#[test]
fn abridged_and_internal_content_is_rejected() {
    let ok = |text: &str| literal_content_ok(&Literal::String(text.to_string()));
    assert!(ok("loading"));
    assert!(!ok("and 3 more..."));
    assert!(!ok("__internal_id"));
    assert!(!ok("typeof import(\"x\")"));
    assert!(ok("typeof import"));
    assert!(!literal_content_ok(&Literal::Number("1...".to_string())));
    assert!(literal_content_ok(&Literal::Template("...".to_string())));
    assert!(literal_content_ok(&Literal::Boolean(true)));
}

#[test]
fn variants_are_written_as_in_the_source() {
    let g = graph(vec![
        TypeData::String,
        TypeData::Number,
        TypeData::Boolean,
        TypeData::BigInt,
        string("a"),
        TypeData::Null,
        TypeData::Literal(Literal::BigInt("1n".to_string())),
    ]);
    let expected = ["string", "number", "boolean", "bigint", "\"a\"", "", ""];
    for (ty, text) in expected.into_iter().enumerate() {
        let mut out = String::new();
        write_variant(&g, &mut out, ty);
        assert_eq!(out, text);
        let len = variant_display_len(&g, ty);
        assert_eq!(len, if text.is_empty() { None } else { Some(text.len()) });
    }
}

#[test]
fn returned_literals_are_joined() {
    assert_eq!(SEPARATOR, " | ");
    let g = graph(vec![string("loading"), string("idle"), number("1"), TypeData::String]);
    let mut out = String::new();
    write_inferred(&g, &mut out, &vec![0, 1]);
    assert_eq!(out, "\"loading\" | \"idle\"");
    let mut out = String::new();
    write_inferred(&g, &mut out, &vec![3, 2, 3, 0]);
    assert_eq!(out, "1 | \"loading\"");
    let mut out = String::new();
    write_inferred(&g, &mut out, &vec![]);
    assert_eq!(out, "");
    assert!(can_render_inferred(&g, &vec![0, 1, 2]));
    assert!(!can_render_inferred(&g, &vec![0, 3]));
    assert!(!can_render_inferred(&g, &vec![]));
}

#[test]
fn unshowable_literals_are_not_suggested() {
    let g = graph(vec![
        string("a"),
        string("b..."),
        TypeData::Literal(Literal::Template("c".to_string())),
    ]);
    assert!(can_render_inferred(&g, &vec![0]));
    assert!(!can_render_inferred(&g, &vec![0, 1]));
    assert!(!can_render_inferred(&g, &vec![0, 2]));
}

#[test]
fn suggestions_are_short() {
    assert_eq!(MAX_DESCRIPTION_LENGTH, 80);
    // Two quoted texts and a separator: 38 + 2 + 3 + 35 + 2 = 80 bytes.
    let g = graph(vec![
        string(&"x".repeat(38)),
        string(&"y".repeat(35)),
        string(&"y".repeat(36)),
        string(&format!("{}\u{e9}", "y".repeat(34))),
    ]);
    assert!(can_render_inferred(&g, &vec![0, 1]));
    assert!(!can_render_inferred(&g, &vec![0, 2]));
    assert!(!can_render_inferred(&g, &vec![0, 3]));
    let s = state(&[0, 1], 0, false);
    assert_eq!(suggestion(&g, &s).len(), 80);
    let s = state(&[0, 2], 0, false);
    assert_eq!(s.description_kind(&g), None);
    assert_eq!(suggestion(&g, &s), "");
}

#[test]
fn annotations_are_narrowed_to_covered_variants() {
    let g = graph(vec![
        string("a"),
        string("b"),
        string("c"),
        union(&[0, 1, 2]),
        TypeData::Null,
        union(&[0, 4]),
    ]);
    assert!(can_render_narrowed(&g, 3, &vec![2, 0]));
    let mut out = String::new();
    write_narrowed(&g, &mut out, 3, &vec![2, 0]);
    assert_eq!(out, "\"a\" | \"c\"");
    // Nothing is left out, nothing is left, or what is left has no text.
    assert!(!can_render_narrowed(&g, 3, &vec![0, 1, 2]));
    assert!(!can_render_narrowed(&g, 3, &vec![4]));
    assert!(!can_render_narrowed(&g, 5, &vec![4]));
    assert!(!can_render_narrowed(&g, 0, &vec![0]));
}

#[test]
fn narrowing_does_not_keep_widening_variants() {
    let g = graph(vec![
        TypeData::String,
        TypeData::Number,
        string("a"),
        string("b"),
        union(&[0, 1]),
        TypeData::Boolean,
        union(&[0, 1, 5]),
        number("1"),
    ]);
    // `string` is still wider than `"a" | "b"`.
    assert!(!can_render_narrowed(&g, 4, &vec![2, 3]));
    // One literal under `string` is not reported.
    assert!(can_render_narrowed(&g, 4, &vec![2]));
    assert!(!can_render_narrowed(&g, 6, &vec![2, 7]));
    assert!(can_render_narrowed(&g, 6, &vec![0, 1]));
}

#[test]
fn narrowed_suggestions_are_short() {
    let g = graph(vec![
        string(&"x".repeat(38)),
        string(&"y".repeat(35)),
        string(&"y".repeat(36)),
        string("z"),
        union(&[0, 1, 3]),
        union(&[0, 2, 3]),
    ]);
    assert!(can_render_narrowed(&g, 4, &vec![0, 1]));
    assert!(!can_render_narrowed(&g, 5, &vec![0, 2]));
}

#[test]
fn narrowing_is_preferred_unless_const_is_used() {
    let g = graph(vec![
        string("a"),
        string("b"),
        string("c"),
        union(&[0, 1, 2]),
        TypeData::String,
        TypeData::Null,
    ]);
    let s = state(&[1, 0], 3, false);
    assert_eq!(s.description_kind(&g), Some(DescriptionKind::Narrowed));
    assert_eq!(suggestion(&g, &s), "\"a\" | \"b\"");
    let s = state(&[1, 0], 3, true);
    assert_eq!(s.description_kind(&g), Some(DescriptionKind::Inferred));
    assert_eq!(suggestion(&g, &s), "\"b\" | \"a\"");
    let s = state(&[1, 0], 4, false);
    assert_eq!(s.description_kind(&g), Some(DescriptionKind::Inferred));
    let s = state(&[5], 4, true);
    assert_eq!(s.description_kind(&g), None);
}

#[test]
fn diagnostics_end_with_advice() {
    let g = graph(vec![string("a"), string("b"), TypeData::String, TypeData::Null]);
    let s = state(&[0, 1], 2, false);
    let said = diagnostic(&g, &s);
    assert_eq!(said.range, s.annotation_range);
    assert_eq!(
        said.title,
        "The return type annotation is wider than what the function actually returns."
    );
    assert_eq!(
        said.notes,
        vec![
            "A wider return type hides the precise types that callers could rely on.".to_string(),
            "Consider using \"a\" | \"b\" as the return type.".to_string(),
        ]
    );
    let said = diagnostic(&g, &state(&[3], 2, false));
    assert_eq!(
        said.notes[1],
        "Narrow the return type to match what the function actually returns."
    );
}

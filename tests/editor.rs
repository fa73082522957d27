use syster_base::{
    document_links, folding_ranges, inlay_hints, selection_ranges, semantic_tokens, FileId,
    HirSymbol, InlayHintKind, SymbolIndex, SymbolKind, TokenType, TypeRef, TypeRefChain,
    TypeRefKind,
};

fn spanned(name: &str, qualified: &str, kind: SymbolKind, span: (u32, u32, u32, u32)) -> HirSymbol {
    let mut s = HirSymbol::new(name, qualified, kind, FileId::new(0));
    s.start_line = span.0;
    s.start_col = span.1;
    s.end_line = span.2;
    s.end_col = span.3;
    s
}

fn sample_index() -> SymbolIndex {
    let mut index = SymbolIndex::new();
    let mut wheel = spanned("wheel", "Car::wheel", SymbolKind::PartUsage, (2, 4, 2, 20));
    wheel.supertypes = vec!["Wheel".to_string()];
    wheel.type_refs = vec![TypeRefKind::Simple(TypeRef::new("Wheel", 2, 12, 2, 17))];
    let mut comment = spanned("doc", "Car::doc", SymbolKind::Comment, (5, 0, 7, 2));
    comment.type_refs = vec![TypeRefKind::Chain(TypeRefChain {
        parts: vec![TypeRef::new("Car", 6, 1, 6, 4), TypeRef::new("wheel", 6, 5, 6, 5)],
    })];
    let mut imp = spanned("Wheel::*", "Car::import:Wheel::*", SymbolKind::Import, (1, 4, 1, 18));
    imp.is_public = false;
    index.add_file(
        FileId::new(0),
        vec![
            spanned("Car", "Car", SymbolKind::Package, (0, 0, 9, 1)),
            spanned("Wheel", "Wheel", SymbolKind::PartDef, (10, 0, 12, 1)),
            wheel,
            comment,
            imp,
        ],
    );
    index
}

#[test]
fn folding_ranges_are_multiline_and_sorted() {
    let index = sample_index();
    let ranges = folding_ranges(&index, FileId::new(0));
    let starts: Vec<u32> = ranges.iter().map(|r| r.start_line).collect();
    assert_eq!(starts, vec![0, 5, 10]);
    assert!(ranges[1].is_comment);
    assert!(!ranges[0].is_comment);
    assert!(folding_ranges(&index, FileId::new(9)).is_empty());
}

#[test]
fn selection_ranges_innermost_first() {
    let index = sample_index();
    let ranges = selection_ranges(&index, FileId::new(0), 2, 10);
    assert_eq!(ranges.len(), 2);
    assert_eq!((ranges[0].start_line, ranges[0].start_col, ranges[0].end_col), (2, 4, 20));
    assert_eq!((ranges[1].start_line, ranges[1].end_line), (0, 9));
    assert!(selection_ranges(&index, FileId::new(0), 20, 0).is_empty());
}

#[test]
fn selection_ranges_drop_repeated_bounds() {
    let mut index = SymbolIndex::new();
    index.add_file(
        FileId::new(0),
        vec![
            spanned("a", "a", SymbolKind::PartUsage, (1, 0, 1, 5)),
            spanned("b", "b", SymbolKind::PartUsage, (1, 0, 1, 5)),
        ],
    );
    assert_eq!(selection_ranges(&index, FileId::new(0), 1, 2).len(), 1);
}

#[test]
fn inlay_hints_show_first_supertype_of_usages() {
    let index = sample_index();
    let hints = inlay_hints(&index, FileId::new(0), None);
    assert_eq!(hints.len(), 1);
    assert_eq!(hints[0].label, ": Wheel");
    assert_eq!(hints[0].line, 2);
    assert_eq!(hints[0].col, 9);
    assert_eq!(hints[0].kind, InlayHintKind::Type);
    assert!(hints[0].padding_right && !hints[0].padding_left);
    assert!(inlay_hints(&index, FileId::new(0), Some((3, 0, 8, 0))).is_empty());
    assert_eq!(inlay_hints(&index, FileId::new(0), Some((2, 0, 2, 30))).len(), 1);
}

#[test]
fn semantic_tokens_are_sorted_by_position() {
    let index = sample_index();
    let tokens = semantic_tokens(&index, FileId::new(0));
    assert_eq!(tokens.len(), 8);
    let positions: Vec<(u32, u32)> = tokens.iter().map(|t| (t.line, t.col)).collect();
    let mut sorted = positions.clone();
    sorted.sort();
    assert_eq!(positions, sorted);
    assert_eq!(tokens[0].token_type, TokenType::Namespace);
    assert_eq!(tokens[0].length, 3);
    let wheel_ref = tokens.iter().find(|t| t.line == 2 && t.col == 12).unwrap();
    assert_eq!(wheel_ref.token_type, TokenType::Type);
    assert_eq!(wheel_ref.length, 5);
    let empty_ref = tokens.iter().find(|t| t.line == 6 && t.col == 5).unwrap();
    assert_eq!(empty_ref.length, 1);
}

#[test]
fn token_types_follow_kinds() {
    assert_eq!(TokenType::from(SymbolKind::Package), TokenType::Namespace);
    assert_eq!(TokenType::from(SymbolKind::PartDef), TokenType::Type);
    assert_eq!(TokenType::from(SymbolKind::FlowUsage), TokenType::Property);
    assert_eq!(TokenType::from(SymbolKind::Comment), TokenType::Comment);
    assert_eq!(TokenType::from(SymbolKind::Alias), TokenType::Variable);
    assert_eq!(TokenType::of_kind(SymbolKind::Import), TokenType::Namespace);
    assert_eq!(TokenType::Namespace.to_lsp_index(), 0);
    assert_eq!(TokenType::Comment.to_lsp_index(), 5);
    assert_eq!(TokenType::Keyword.to_lsp_index(), 4);
}

#[test]
fn document_links_point_at_definitions() {
    let index = sample_index();
    let links = document_links(&index, FileId::new(0));
    assert_eq!(links.len(), 3);
    assert_eq!(links[0].tooltip, "Go to Wheel");
    assert_eq!((links[0].start_line, links[0].start_col), (2, 12));
    assert_eq!((links[0].target_line, links[0].target_col), (10, 0));
    assert_eq!(links[1].tooltip, "Go to Car");
    assert_eq!(links[2].tooltip, "Go to Wheel");
    assert_eq!((links[2].start_line, links[2].start_col), (1, 4));
    assert_eq!(links[2].target_file, FileId::new(0));
}

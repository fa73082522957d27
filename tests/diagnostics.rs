use syster_base::codes;
use syster_base::{
    check_file, Diagnostic, DiagnosticCollector, FileId, HirSymbol, RelatedInfo, SemanticChecker,
    Severity, SymbolIndex, SymbolKind,
};

fn symbol(name: &str, qualified: &str, kind: SymbolKind, file: u32) -> HirSymbol {
    HirSymbol::new(name, qualified, kind, FileId::new(file))
}

#[test]
fn test_diagnostic_error() {
    let diag = Diagnostic::error(FileId::new(0), 10, 5, "test error");
    assert_eq!(diag.severity, Severity::Error);
    assert_eq!(diag.start_line, 10);
    assert_eq!(diag.start_col, 5);
}

#[test]
fn test_diagnostic_with_code() {
    let diag = Diagnostic::error(FileId::new(0), 0, 0, "test").with_code(codes::UNDEFINED_REFERENCE);
    assert_eq!(diag.code.as_deref(), Some("E0001"));
}

#[test]
fn diagnostic_builders_set_span_and_related() {
    let diag = Diagnostic::warning(FileId::new(3), 1, 2, "w")
        .with_span(4, 9)
        .with_related(RelatedInfo { file: FileId::new(1), line: 7, col: 8, message: "see".to_string() });
    assert_eq!(diag.severity, Severity::Warning);
    assert_eq!((diag.start_line, diag.start_col, diag.end_line, diag.end_col), (1, 2, 4, 9));
    assert_eq!(diag.related.len(), 1);
    assert_eq!(diag.related[0].line, 7);
    assert!(diag.code.is_none());
}

#[test]
fn test_collector_counts() {
    let mut collector = DiagnosticCollector::new();
    collector.add(Diagnostic::error(FileId::new(0), 0, 0, "error 1"));
    collector.add(Diagnostic::error(FileId::new(0), 0, 0, "error 2"));
    collector.add(Diagnostic::warning(FileId::new(0), 0, 0, "warning 1"));

    assert_eq!(collector.error_count(), 2);
    assert_eq!(collector.warning_count(), 1);
    assert!(collector.has_errors());
}

#[test]
fn test_collector_by_file() {
    let mut collector = DiagnosticCollector::new();
    collector.add(Diagnostic::error(FileId::new(0), 0, 0, "file 0"));
    collector.add(Diagnostic::error(FileId::new(1), 0, 0, "file 1"));
    collector.add(Diagnostic::error(FileId::new(0), 0, 0, "file 0 again"));

    let file0_diags = collector.diagnostics_for_file(FileId::new(0));
    assert_eq!(file0_diags.len(), 2);

    let file1_diags = collector.diagnostics_for_file(FileId::new(1));
    assert_eq!(file1_diags.len(), 1);
}

#[test]
fn collector_take_and_clear_empty_it() {
    let mut collector = DiagnosticCollector::new();
    collector.add(Diagnostic::warning(FileId::new(0), 0, 0, "w"));
    assert!(!collector.has_errors());
    let taken = collector.take();
    assert_eq!(taken.len(), 1);
    assert_eq!(collector.diagnostics().len(), 0);
    collector.add(Diagnostic::error(FileId::new(0), 0, 0, "e"));
    collector.clear();
    assert_eq!(collector.diagnostics().len(), 0);
}

#[test]
fn collector_reference_errors_have_codes_and_messages() {
    let mut collector = DiagnosticCollector::new();
    let mut s = symbol("wheel", "Vehicle::wheel", SymbolKind::PartUsage, 0);
    s.start_line = 3;
    s.end_line = 3;
    s.end_col = 12;
    collector.undefined_reference(FileId::new(0), &s, "Wheel");
    let a = symbol("X", "A::X", SymbolKind::PartDef, 1);
    let b = symbol("X", "B::X", SymbolKind::PartDef, 2);
    collector.ambiguous_reference(FileId::new(0), &s, "X", &[a.clone(), b.clone()]);
    collector.duplicate_definition(FileId::new(0), &a, &b);
    collector.type_mismatch(FileId::new(0), &s, "Real", "Integer");
    collector.unused_symbol(&s);
    let d = collector.diagnostics();
    assert_eq!(d.len(), 5);
    assert_eq!(d[0].message, "undefined reference: 'Wheel'");
    assert_eq!(d[0].code.as_deref(), Some("E0001"));
    assert_eq!((d[0].start_line, d[0].end_col), (3, 12));
    assert_eq!(d[1].message, "ambiguous reference: 'X' could be: A::X, B::X");
    assert_eq!(d[1].code.as_deref(), Some("E0002"));
    assert_eq!(d[1].related.len(), 2);
    assert_eq!(d[1].related[1].message, "candidate: B::X");
    assert_eq!(d[2].message, "duplicate definition: 'X' is already defined");
    assert_eq!(d[2].related[0].message, "previous definition of 'X'");
    assert_eq!(d[2].code.as_deref(), Some("E0004"));
    assert_eq!(d[3].message, "type mismatch: expected 'Real', found 'Integer'");
    assert_eq!(d[3].code.as_deref(), Some("E0003"));
    assert_eq!(d[4].message, "unused part: 'wheel'");
    assert_eq!(d[4].severity, Severity::Warning);
    assert_eq!(d[4].code.as_deref(), Some("W0001"));
}

#[test]
fn test_severity_to_lsp() {
    assert_eq!(Severity::Error.to_lsp(), 1);
    assert_eq!(Severity::Warning.to_lsp(), 2);
    assert_eq!(Severity::Info.to_lsp(), 3);
    assert_eq!(Severity::Hint.to_lsp(), 4);
}

#[test]
fn test_semantic_checker_undefined_reference() {
    let mut index = SymbolIndex::new();

    let mut s = symbol("wheel", "Vehicle::wheel", SymbolKind::PartUsage, 0);
    s.supertypes = vec!["NonExistent".to_string()];

    index.add_file(FileId::new(0), vec![s]);

    let diagnostics = check_file(&index, FileId::new(0));

    assert_eq!(diagnostics.len(), 1);
    assert!(diagnostics[0].message.contains("undefined reference"));
}

#[test]
fn test_semantic_checker_valid_reference() {
    let mut index = SymbolIndex::new();

    let wheel_def = symbol("Wheel", "Wheel", SymbolKind::PartDef, 0);

    let mut wheel_usage = symbol("wheel", "Vehicle::wheel", SymbolKind::PartUsage, 0);
    wheel_usage.supertypes = vec!["Wheel".to_string()];

    index.add_file(FileId::new(0), vec![wheel_def, wheel_usage]);

    let diagnostics = check_file(&index, FileId::new(0));

    assert_eq!(diagnostics.len(), 0);
}

#[test]
fn semantic_checker_reports_usage_as_type() {
    let mut index = SymbolIndex::new();
    let engine = symbol("engine", "engine", SymbolKind::PartUsage, 0);
    let mut car = symbol("car", "Vehicle::car", SymbolKind::PartUsage, 0);
    car.supertypes = vec!["engine".to_string(), "Missing".to_string()];
    index.add_file(FileId::new(0), vec![engine, car]);
    index.ensure_visibility_maps();

    let mut checker = SemanticChecker::new(&index);
    checker.check_file(FileId::new(0));
    let diagnostics = checker.finish();
    assert_eq!(diagnostics.len(), 2);
    assert_eq!(diagnostics[0].message, "undefined reference: 'engine'");
    assert_eq!(diagnostics[1].message, "undefined reference: 'Missing'");
}

//! Semantic core of a toolchain for a block-structured modeling language:
//! a symbol index, per-scope visibility maps, a query-time resolver and a
//! pass that resolves type references and feature chains.
pub mod base;
pub mod names;
pub mod symbols;
pub mod table;
pub mod visibility;
pub mod index;
pub mod builder;
pub mod resolver;
pub mod chains;
pub mod laws;
pub mod scope;
pub mod source_root;
pub mod ids;
pub mod intern;
pub mod codes;
pub mod diagnostics;
pub mod ide;

pub use base::{FileId, LineCol, LineIndex, Name};
pub use diagnostics::{
    Diagnostic, DiagnosticCollector, RelatedInfo, SemanticChecker, Severity, check_file,
};
pub use ide::{
    DocumentLink, FoldingRange, InlayHint, InlayHintKind, SelectionRange, SemanticToken, TokenType,
    document_links, folding_ranges, inlay_hints, selection_ranges, semantic_tokens,
};
pub use ids::{DefId, LocalDefId};
pub use index::SymbolIndex;
pub use intern::NameTable;
pub use resolver::{ResolveResult, Resolver};
pub use scope::Scope;
pub use source_root::SourceRoot;
pub use symbols::{HirSymbol, SymbolKind, TypeRef, TypeRefChain, TypeRefKind};
pub use visibility::ScopeVisibility;

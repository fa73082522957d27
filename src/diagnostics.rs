//! Diagnostics: semantic errors and warnings, a collector for them, and a
//! checker that reports the supertype references that do not resolve.
use vstd::prelude::*;

use crate::base::FileId;
use crate::codes;
use crate::index::{SymbolIndex, file_symbols};
use crate::names::{outer_of, outer_scope};
use crate::resolver::{ResolveResult, Resolver, resolve_type_spec};
use crate::symbols::{HirSymbol, SymbolView};

verus! {

/// Severity level of a diagnostic.
#[derive(Copy, Clone, PartialEq, Eq, Hash, Debug, Structural)]
pub enum Severity {
    Error,
    Warning,
    Info,
    Hint,
}

impl Severity {
    /// The severity number of the editor protocol: 1 to 4.
    pub fn to_lsp(&self) -> (r: u32)
        ensures
            r == match *self {
                Severity::Error => 1u32,
                Severity::Warning => 2,
                Severity::Info => 3,
                Severity::Hint => 4,
            },
    {
        match self {
            Severity::Error => 1,
            Severity::Warning => 2,
            Severity::Info => 3,
            Severity::Hint => 4,
        }
    }
}

/// Related information for a diagnostic.
#[derive(Clone, Debug)]
pub struct RelatedInfo {
    pub file: FileId,
    pub line: u32,
    pub col: u32,
    pub message: String,
}

/// A diagnostic message with its location (0-indexed lines and columns).
#[derive(Clone, Debug)]
pub struct Diagnostic {
    pub file: FileId,
    pub start_line: u32,
    pub start_col: u32,
    pub end_line: u32,
    pub end_col: u32,
    pub severity: Severity,
    pub code: Option<String>,
    pub message: String,
    pub related: Vec<RelatedInfo>,
}

/// Whether `d` is a diagnostic of `severity` at one point, with no code
/// and no related information.
pub open spec fn is_plain(d: Diagnostic, file: FileId, line: u32, col: u32, severity: Severity, message: Seq<char>) -> bool {
    &&& d.file == file
    &&& d.start_line == line && d.start_col == col && d.end_line == line && d.end_col == col
    &&& d.severity == severity
    &&& d.code is None
    &&& d.message@ == message
    &&& d.related@.len() == 0
}

impl Diagnostic {
    fn make(file: FileId, line: u32, col: u32, severity: Severity, message: &str) -> (r: Diagnostic)
        ensures
            is_plain(r, file, line, col, severity, message@),
    {
        Diagnostic {
            file,
            start_line: line,
            start_col: col,
            end_line: line,
            end_col: col,
            severity,
            code: None,
            message: message.to_owned(),
            related: Vec::new(),
        }
    }

    /// An error at a point.
    pub fn error(file: FileId, line: u32, col: u32, message: &str) -> (r: Diagnostic)
        ensures
            is_plain(r, file, line, col, Severity::Error, message@),
    {
        Diagnostic::make(file, line, col, Severity::Error, message)
    }

    /// A warning at a point.
    pub fn warning(file: FileId, line: u32, col: u32, message: &str) -> (r: Diagnostic)
        ensures
            is_plain(r, file, line, col, Severity::Warning, message@),
    {
        Diagnostic::make(file, line, col, Severity::Warning, message)
    }

    /// The same diagnostic, ending at `end_line`, `end_col`.
    pub fn with_span(self, end_line: u32, end_col: u32) -> (r: Diagnostic)
        ensures
            r == (Diagnostic { end_line, end_col, ..self }),
    {
        let mut d = self;
        d.end_line = end_line;
        d.end_col = end_col;
        d
    }

    /// The same diagnostic, with `code`.
    pub fn with_code(self, code: &str) -> (r: Diagnostic)
        ensures
            r.code matches Some(c) && c@ == code@,
            r == (Diagnostic { code: r.code, ..self }),
    {
        let mut d = self;
        d.code = Some(code.to_owned());
        d
    }

    /// The same diagnostic, with one more piece of related information.
    pub fn with_related(self, info: RelatedInfo) -> (r: Diagnostic)
        ensures
            r.related@ == self.related@.push(info),
            r == (Diagnostic { related: r.related, ..self }),
    {
        let mut d = self;
        d.related.push(info);
        d
    }
}

/// `a` then `b` then `c`, as one string.
fn concat3(a: &str, b: &str, c: &str) -> (r: String)
    ensures
        r@ == a@ + b@ + c@,
{
    let mut r = a.to_owned();
    r.append(b);
    r.append(c);
    r
}

/// Whether `d` is an error about `symbol` with `code` and `message`.
pub open spec fn is_symbol_error(d: Diagnostic, file: FileId, symbol: SymbolView, code: Seq<char>, message: Seq<char>) -> bool {
    &&& d.file == file
    &&& d.start_line == symbol.start_line && d.start_col == symbol.start_col
    &&& d.end_line == symbol.end_line && d.end_col == symbol.end_col
    &&& d.severity == Severity::Error
    &&& d.code matches Some(c) && c@ == code
    &&& d.message@ == message
}

/// The message of an undefined reference to `name`.
pub open spec fn undefined_message(name: Seq<char>) -> Seq<char> {
    "undefined reference: '"@ + name + "'"@
}

/// The number of diagnostics of `severity`.
pub open spec fn count_severity(d: Seq<Diagnostic>, severity: Severity) -> nat
    decreases d.len(),
{
    if d.len() == 0 {
        0
    } else {
        count_severity(d.drop_last(), severity) + if d.last().severity == severity {
            1nat
        } else {
            0nat
        }
    }
}

/// The diagnostics of `file`, in order.
pub open spec fn of_file(d: Seq<Diagnostic>, file: FileId) -> Seq<Diagnostic>
    decreases d.len(),
{
    if d.len() == 0 {
        d
    } else if d.last().file == file {
        of_file(d.drop_last(), file).push(d.last())
    } else {
        of_file(d.drop_last(), file)
    }
}

/// Collects diagnostics during semantic analysis.
#[derive(Clone, Debug)]
pub struct DiagnosticCollector {
    diagnostics: Vec<Diagnostic>,
}

impl DiagnosticCollector {
    /// The diagnostics collected, in order.
    pub closed spec fn items(&self) -> Seq<Diagnostic> {
        self.diagnostics@
    }

    /// An empty collector.
    pub fn new() -> (r: DiagnosticCollector)
        ensures
            r.items().len() == 0,
    {
        DiagnosticCollector { diagnostics: Vec::new() }
    }

    /// Adds a diagnostic.
    pub fn add(&mut self, diagnostic: Diagnostic)
        ensures
            final(self).items() == old(self).items().push(diagnostic),
    {
        self.diagnostics.push(diagnostic);
    }

    /// Adds an undefined-reference error for `name`, referenced by `symbol`.
    pub fn undefined_reference(&mut self, file: FileId, symbol: &HirSymbol, name: &str)
        ensures
            final(self).items().len() == old(self).items().len() + 1,
            final(self).items().drop_last() == old(self).items(),
            is_symbol_error(final(self).items().last(), file, symbol@, codes::UNDEFINED_REFERENCE@, undefined_message(name@)),
            final(self).items().last().related@.len() == 0,
    {
        let message = concat3("undefined reference: '", name, "'");
        let d = Diagnostic::error(file, symbol.start_line, symbol.start_col, message.as_str())
            .with_span(symbol.end_line, symbol.end_col)
            .with_code(codes::UNDEFINED_REFERENCE);
        let ghost before = self.diagnostics@;
        self.add(d);
        assert(self.items().drop_last() =~= before);
    }

    /// Adds an ambiguous-reference error for `name`, with one piece of
    /// related information per candidate.
    pub fn ambiguous_reference(&mut self, file: FileId, symbol: &HirSymbol, name: &str, candidates: &[HirSymbol])
        ensures
            final(self).items().len() == old(self).items().len() + 1,
            final(self).items().drop_last() == old(self).items(),
            final(self).items().last().code matches Some(c) && c@ == codes::AMBIGUOUS_REFERENCE@,
            final(self).items().last().severity == Severity::Error,
            final(self).items().last().file == file,
            final(self).items().last().related@.len() == candidates@.len(),
            forall|k: int| 0 <= k < candidates@.len() ==> {
                let info = #[trigger] final(self).items().last().related@[k];
                info.file == candidates@[k].file && info.line == candidates@[k].start_line
                    && info.col == candidates@[k].start_col
            },
    {
        let mut names = String::new();
        let mut i: usize = 0;
        while i < candidates.len()
            invariant
                i <= candidates@.len(),
            decreases candidates@.len() - i,
        {
            if i > 0 {
                names.append(", ");
            }
            names.append(candidates[i].qualified_name.as_str());
            i = i + 1;
        }
        let mut message = concat3("ambiguous reference: '", name, "' could be: ");
        message.append(names.as_str());
        let mut d = Diagnostic::error(file, symbol.start_line, symbol.start_col, message.as_str())
            .with_span(symbol.end_line, symbol.end_col)
            .with_code(codes::AMBIGUOUS_REFERENCE);
        let mut i: usize = 0;
        while i < candidates.len()
            invariant
                i <= candidates@.len(),
                d.code matches Some(c) && c@ == codes::AMBIGUOUS_REFERENCE@,
                d.severity == Severity::Error,
                d.file == file,
                d.related@.len() == i,
                forall|k: int| 0 <= k < i ==> {
                    let info = #[trigger] d.related@[k];
                    info.file == candidates@[k].file && info.line == candidates@[k].start_line
                        && info.col == candidates@[k].start_col
                },
            decreases candidates@.len() - i,
        {
            let c = &candidates[i];
            let info = RelatedInfo {
                file: c.file,
                line: c.start_line,
                col: c.start_col,
                message: concat3("candidate: ", c.qualified_name.as_str(), ""),
            };
            d = d.with_related(info);
            i = i + 1;
        }
        let ghost before = self.diagnostics@;
        self.add(d);
        assert(self.items().drop_last() =~= before);
    }

    /// Adds a duplicate-definition error for `symbol`, pointing at `existing`.
    pub fn duplicate_definition(&mut self, file: FileId, symbol: &HirSymbol, existing: &HirSymbol)
        ensures
            final(self).items().len() == old(self).items().len() + 1,
            final(self).items().drop_last() == old(self).items(),
            is_symbol_error(
                final(self).items().last(),
                file,
                symbol@,
                codes::DUPLICATE_DEFINITION@,
                "duplicate definition: '"@ + symbol@.name + "' is already defined"@,
            ),
            final(self).items().last().related@.len() == 1,
            final(self).items().last().related@[0].file == existing.file,
            final(self).items().last().related@[0].line == existing.start_line,
            final(self).items().last().related@[0].col == existing.start_col,
            final(self).items().last().related@[0].message@ == "previous definition of '"@ + existing@.name + "'"@,
    {
        let message = concat3("duplicate definition: '", symbol.name.as_str(), "' is already defined");
        let info = RelatedInfo {
            file: existing.file,
            line: existing.start_line,
            col: existing.start_col,
            message: concat3("previous definition of '", existing.name.as_str(), "'"),
        };
        let d = Diagnostic::error(file, symbol.start_line, symbol.start_col, message.as_str())
            .with_span(symbol.end_line, symbol.end_col)
            .with_code(codes::DUPLICATE_DEFINITION)
            .with_related(info);
        let ghost before = self.diagnostics@;
        self.add(d);
        assert(self.items().drop_last() =~= before);
    }

    /// Adds a type-mismatch error for `symbol`.
    pub fn type_mismatch(&mut self, file: FileId, symbol: &HirSymbol, expected: &str, found: &str)
        ensures
            final(self).items().len() == old(self).items().len() + 1,
            final(self).items().drop_last() == old(self).items(),
            is_symbol_error(
                final(self).items().last(),
                file,
                symbol@,
                codes::TYPE_MISMATCH@,
                "type mismatch: expected '"@ + expected@ + "', found '"@ + found@ + "'"@,
            ),
    {
        let mut message = concat3("type mismatch: expected '", expected, "', found '");
        message.append(found);
        message.append("'");
        let d = Diagnostic::error(file, symbol.start_line, symbol.start_col, message.as_str())
            .with_span(symbol.end_line, symbol.end_col)
            .with_code(codes::TYPE_MISMATCH);
        let ghost before = self.diagnostics@;
        self.add(d);
        assert(self.items().drop_last() =~= before);
    }

    /// Adds an unused-symbol warning for `symbol`, in its own file.
    pub fn unused_symbol(&mut self, symbol: &HirSymbol)
        ensures
            final(self).items().len() == old(self).items().len() + 1,
            final(self).items().drop_last() == old(self).items(),
            final(self).items().last().file == symbol.file,
            final(self).items().last().severity == Severity::Warning,
            final(self).items().last().code matches Some(c) && c@ == codes::UNUSED_SYMBOL@,
            final(self).items().last().start_line == symbol.start_line,
            final(self).items().last().end_line == symbol.end_line,
    {
        let mut message = concat3("unused ", symbol.kind.display(), ": '");
        message.append(symbol.name.as_str());
        message.append("'");
        let d = Diagnostic::warning(symbol.file, symbol.start_line, symbol.start_col, message.as_str())
            .with_span(symbol.end_line, symbol.end_col)
            .with_code(codes::UNUSED_SYMBOL);
        let ghost before = self.diagnostics@;
        self.add(d);
        assert(self.items().drop_last() =~= before);
    }

    /// All diagnostics, in order.
    pub fn diagnostics(&self) -> (r: &[Diagnostic])
        ensures
            r@ == self.items(),
    {
        self.diagnostics.as_slice()
    }

    /// The diagnostics of one file, in order.
    pub fn diagnostics_for_file(&self, file: FileId) -> (r: Vec<&Diagnostic>)
        ensures
            r@.len() == of_file(self.items(), file).len(),
            forall|k: int| 0 <= k < r@.len() ==> *r@[k] == of_file(self.items(), file)[k],
    {
        let mut r: Vec<&Diagnostic> = Vec::new();
        let mut i: usize = 0;
        while i < self.diagnostics.len()
            invariant
                i <= self.diagnostics@.len(),
                r@.len() == of_file(self.diagnostics@.subrange(0, i as int), file).len(),
                forall|k: int| 0 <= k < r@.len() ==> *r@[k] == of_file(self.diagnostics@.subrange(0, i as int), file)[k],
            decreases self.diagnostics@.len() - i,
        {
            proof {
                assert(self.diagnostics@.subrange(0, i + 1).drop_last() =~= self.diagnostics@.subrange(0, i as int));
            }
            if self.diagnostics[i].file == file {
                r.push(&self.diagnostics[i]);
            }
            i = i + 1;
        }
        assert(self.diagnostics@.subrange(0, self.diagnostics@.len() as int) =~= self.diagnostics@);
        r
    }

    fn count_of(&self, severity: Severity) -> (r: usize)
        ensures
            r == count_severity(self.items(), severity),
    {
        let mut n: usize = 0;
        let mut i: usize = 0;
        while i < self.diagnostics.len()
            invariant
                i <= self.diagnostics@.len(),
                n == count_severity(self.diagnostics@.subrange(0, i as int), severity),
                n <= i,
            decreases self.diagnostics@.len() - i,
        {
            proof {
                assert(self.diagnostics@.subrange(0, i + 1).drop_last() =~= self.diagnostics@.subrange(0, i as int));
            }
            if self.diagnostics[i].severity == severity {
                n = n + 1;
            }
            i = i + 1;
        }
        assert(self.diagnostics@.subrange(0, self.diagnostics@.len() as int) =~= self.diagnostics@);
        n
    }

    /// The number of errors.
    pub fn error_count(&self) -> (r: usize)
        ensures
            r == count_severity(self.items(), Severity::Error),
    {
        self.count_of(Severity::Error)
    }

    /// The number of warnings.
    pub fn warning_count(&self) -> (r: usize)
        ensures
            r == count_severity(self.items(), Severity::Warning),
    {
        self.count_of(Severity::Warning)
    }

    /// Whether any error was collected.
    pub fn has_errors(&self) -> (r: bool)
        ensures
            r == (count_severity(self.items(), Severity::Error) > 0),
    {
        self.count_of(Severity::Error) > 0
    }

    /// Takes all diagnostics, leaving the collector empty.
    pub fn take(&mut self) -> (r: Vec<Diagnostic>)
        ensures
            r@ == old(self).items(),
            final(self).items().len() == 0,
    {
        let mut out: Vec<Diagnostic> = Vec::new();
        std::mem::swap(&mut out, &mut self.diagnostics);
        out
    }

    /// Removes all diagnostics.
    pub fn clear(&mut self)
        ensures
            final(self).items().len() == 0,
    {
        self.diagnostics.clear();
    }
}

impl Default for DiagnosticCollector {
    fn default() -> (r: DiagnosticCollector)
        ensures
            r.items().len() == 0,
    {
        DiagnosticCollector::new()
    }
}

/// The (symbol, supertype name) pairs among `syms` whose supertype does not
/// resolve as a type from the symbol's enclosing scope, in order.
pub open spec fn unresolved_supertypes(v: crate::index::IndexView, syms: Seq<SymbolView>) -> Seq<(SymbolView, Seq<char>)>
    decreases syms.len(),
{
    if syms.len() == 0 {
        Seq::empty()
    } else {
        let s = syms.last();
        unresolved_supertypes(v, syms.drop_last()) + unresolved_of(v, s, s.supertypes.len() as int)
    }
}

/// The supertypes among the first `n` of `s` that do not resolve as types.
pub open spec fn unresolved_of(v: crate::index::IndexView, s: SymbolView, n: int) -> Seq<(SymbolView, Seq<char>)>
    decreases n,
{
    if n <= 0 {
        Seq::empty()
    } else {
        let rest = unresolved_of(v, s, n - 1);
        if resolve_type_spec(v, outer_of(s.qualified_name), s.supertypes[n - 1]) is None {
            rest.push((s, s.supertypes[n - 1]))
        } else {
            rest
        }
    }
}

/// Whether `d` holds, in order, one undefined-reference error per pair.
pub open spec fn reports(d: Seq<Diagnostic>, pairs: Seq<(SymbolView, Seq<char>)>) -> bool {
    &&& d.len() == pairs.len()
    &&& forall|k: int| 0 <= k < d.len() ==> is_symbol_error(
        #[trigger] d[k],
        pairs[k].0.file,
        pairs[k].0,
        codes::UNDEFINED_REFERENCE@,
        undefined_message(pairs[k].1),
    )
}

/// Checks symbols against an index, collecting diagnostics.
pub struct SemanticChecker<'a> {
    index: &'a SymbolIndex,
    collector: DiagnosticCollector,
}

impl<'a> SemanticChecker<'a> {
    /// The index checked against.
    pub closed spec fn index_view(&self) -> crate::index::IndexView {
        self.index@
    }

    /// Whether the index is well formed.
    pub closed spec fn index_wf(&self) -> bool {
        self.index.wf()
    }

    /// The diagnostics collected so far.
    pub closed spec fn collected(&self) -> Seq<Diagnostic> {
        self.collector.items()
    }

    /// A checker with no diagnostics yet.
    pub fn new(index: &'a SymbolIndex) -> (r: SemanticChecker<'a>)
        ensures
            r.index_view() == index@,
            r.index_wf() == index.wf(),
            r.collected().len() == 0,
    {
        SemanticChecker { index, collector: DiagnosticCollector::new() }
    }

    /// Checks every symbol of `file`: each supertype that does not resolve
    /// as a type from the symbol's enclosing scope gets an
    /// undefined-reference error.
    pub fn check_file(&mut self, file: FileId)
        requires
            old(self).index_wf(),
        ensures
            final(self).index_view() == old(self).index_view(),
            final(self).index_wf(),
            final(self).collected().subrange(0, old(self).collected().len() as int) == old(self).collected(),
            reports(
                final(self).collected().subrange(old(self).collected().len() as int, final(self).collected().len() as int),
                unresolved_supertypes(old(self).index_view(), file_symbols(old(self).index_view(), file)),
            ),
    {
        let symbols = self.index.symbols_in_file(file);
        let ghost start = self.collector.items();
        let ghost syms = file_symbols(self.index@, file);
        let mut i: usize = 0;
        while i < symbols.len()
            invariant
                self.index.wf(),
                self.index@ == old(self).index_view(),
                syms == file_symbols(self.index@, file),
                crate::index::symbols_view(symbols@) == syms,
                i <= symbols@.len(),
                self.collector.items().subrange(0, start.len() as int) == start,
                start.len() <= self.collector.items().len(),
                start == old(self).collected(),
                reports(
                    self.collector.items().subrange(start.len() as int, self.collector.items().len() as int),
                    unresolved_supertypes(self.index@, syms.subrange(0, i as int)),
                ),
            decreases symbols@.len() - i,
        {
            let ghost before = self.collector.items();
            self.check_symbol(symbols[i]);
            proof {
                let s = syms[i as int];
                assert(symbols@[i as int]@ == s);
                assert(syms.subrange(0, i + 1).drop_last() =~= syms.subrange(0, i as int));
                let a = before.subrange(start.len() as int, before.len() as int);
                let b = self.collector.items().subrange(before.len() as int, self.collector.items().len() as int);
                assert(self.collector.items().subrange(start.len() as int, self.collector.items().len() as int) =~= a + b);
                assert(self.collector.items().subrange(0, start.len() as int) =~= before.subrange(0, start.len() as int));
                lemma_reports_append(a, b, unresolved_supertypes(self.index@, syms.subrange(0, i as int)), unresolved_of(self.index@, s, s.supertypes.len() as int));
            }
            i = i + 1;
        }
        proof {
            assert(syms.subrange(0, syms.len() as int) =~= syms);
        }
    }

    /// Checks the supertypes of one symbol.
    fn check_symbol(&mut self, symbol: &HirSymbol)
        requires
            old(self).index.wf(),
        ensures
            final(self).index == old(self).index,
            final(self).collector.items().subrange(0, old(self).collector.items().len() as int) == old(self).collector.items(),
            old(self).collector.items().len() <= final(self).collector.items().len(),
            reports(
                final(self).collector.items().subrange(old(self).collector.items().len() as int, final(self).collector.items().len() as int),
                unresolved_of(old(self).index@, symbol@, symbol@.supertypes.len() as int),
            ),
    {
        let ghost start = self.collector.items();
        let mut k: usize = 0;
        while k < symbol.supertypes.len()
            invariant
                self.index == old(self).index,
                self.index.wf(),
                k <= symbol.supertypes@.len(),
                start == old(self).collector.items(),
                start.len() <= self.collector.items().len(),
                self.collector.items().subrange(0, start.len() as int) == start,
                reports(
                    self.collector.items().subrange(start.len() as int, self.collector.items().len() as int),
                    unresolved_of(self.index@, symbol@, k as int),
                ),
            decreases symbol.supertypes@.len() - k,
        {
            let ghost before = self.collector.items();
            self.check_reference(symbol, symbol.supertypes[k].as_str());
            proof {
                let rest = unresolved_of(self.index@, symbol@, k as int);
                let now = self.collector.items();
                assert(symbol@.supertypes[k as int] == symbol.supertypes@[k as int]@);
                if now.len() == before.len() + 1 {
                    assert(now.subrange(start.len() as int, now.len() as int) =~= before.subrange(start.len() as int, before.len() as int).push(now.last()));
                } else {
                    assert(now.subrange(start.len() as int, now.len() as int) =~= before.subrange(start.len() as int, before.len() as int));
                }
                assert(now.subrange(0, start.len() as int) =~= before.subrange(0, start.len() as int));
            }
            k = k + 1;
        }
    }

    /// Reports `name`, referenced by `symbol`, unless it resolves as a type
    /// from the symbol's enclosing scope.
    fn check_reference(&mut self, symbol: &HirSymbol, name: &str)
        requires
            old(self).index.wf(),
        ensures
            final(self).index == old(self).index,
            resolve_type_spec(old(self).index@, outer_of(symbol@.qualified_name), name@) is Some
                ==> final(self).collector.items() == old(self).collector.items(),
            resolve_type_spec(old(self).index@, outer_of(symbol@.qualified_name), name@) is None
                ==> final(self).collector.items().len() == old(self).collector.items().len() + 1
                && final(self).collector.items().drop_last() == old(self).collector.items()
                && is_symbol_error(final(self).collector.items().last(), symbol.file, symbol@, codes::UNDEFINED_REFERENCE@, undefined_message(name@)),
    {
        let scope = self.extract_scope(symbol.qualified_name.as_str());
        let resolver = Resolver::new(self.index).with_scope(scope.as_str());
        match resolver.resolve_type(name) {
            ResolveResult::Found(_) => {},
            ResolveResult::Ambiguous(candidates) => {
                self.collector.ambiguous_reference(symbol.file, symbol, name, candidates.as_slice());
            },
            ResolveResult::NotFound => {
                self.collector.undefined_reference(symbol.file, symbol, name);
            },
        }
    }

    /// The scope enclosing a qualified name (the root for a root-level one).
    fn extract_scope(&self, qualified_name: &str) -> (r: String)
        ensures
            r@ == outer_of(qualified_name@),
    {
        outer_scope(qualified_name)
    }

    /// The diagnostics collected.
    pub fn finish(self) -> (r: Vec<Diagnostic>)
        ensures
            r@ == self.collected(),
    {
        self.collector.diagnostics
    }
}

proof fn lemma_reports_append(a: Seq<Diagnostic>, b: Seq<Diagnostic>, p: Seq<(SymbolView, Seq<char>)>, q: Seq<(SymbolView, Seq<char>)>)
    requires
        reports(a, p),
        reports(b, q),
    ensures
        reports(a + b, p + q),
{
    assert forall|k: int| 0 <= k < (a + b).len() implies is_symbol_error(
        #[trigger] (a + b)[k],
        (p + q)[k].0.file,
        (p + q)[k].0,
        codes::UNDEFINED_REFERENCE@,
        undefined_message((p + q)[k].1),
    ) by {
        if k >= a.len() {
            assert((a + b)[k] == b[k - a.len()]);
            assert((p + q)[k] == q[k - p.len()]);
        }
    }
}

/// Checks a file against an index and returns its diagnostics: one
/// undefined-reference error per supertype that does not resolve as a type.
pub fn check_file(index: &SymbolIndex, file: FileId) -> (r: Vec<Diagnostic>)
    requires
        index.wf(),
    ensures
        reports(r@, unresolved_supertypes(index@, file_symbols(index@, file))),
{
    let mut checker = SemanticChecker::new(index);
    checker.check_file(file);
    let r = checker.finish();
    proof {
        assert(r@.subrange(0, r@.len() as int) =~= r@);
    }
    r
}

} // verus!

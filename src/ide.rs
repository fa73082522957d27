//! Editor features computed from the index: document links, folding
//! ranges, selection ranges, inlay hints and semantic tokens.
use vstd::prelude::*;

use crate::base::FileId;
use crate::index::{IndexView, SymbolIndex, file_symbols, qualified_lookup, symbols_view};
use crate::names::chars_of;
use crate::symbols::{SymbolKind, SymbolView, TypeRefKindView, is_usage_kind, parts_of};

verus! {

/// Whether the keys of `v` never decrease.
pub open spec fn keys_sorted<T>(v: Seq<(u64, T)>) -> bool {
    forall|a: int, b: int| 0 <= a < b < v.len() ==> v[a].0 <= v[b].0
}

/// Sorts by key, keeping the order of equal keys; every item is kept.
fn sort_by_key<T>(v: Vec<(u64, T)>) -> (r: Vec<(u64, T)>)
    ensures
        keys_sorted(r@),
        r@.len() == v@.len(),
        forall|k: int| 0 <= k < r@.len() ==> v@.contains(#[trigger] r@[k]),
{
    let mut input = v;
    let ghost orig = input@;
    let mut out: Vec<(u64, T)> = Vec::new();
    let mut rev: Vec<(u64, T)> = Vec::new();
    while input.len() > 0
        invariant
            rev@.len() + input@.len() == orig.len(),
            forall|k: int| 0 <= k < input@.len() ==> input@[k] == orig[k],
            forall|k: int| 0 <= k < rev@.len() ==> orig.contains(#[trigger] rev@[k]),
        decreases input@.len(),
    {
        let x = input.pop().unwrap();
        assert(orig[input@.len() as int] == x);
        rev.push(x);
    }
    while rev.len() > 0
        invariant
            keys_sorted(out@),
            out@.len() + rev@.len() == orig.len(),
            forall|k: int| 0 <= k < rev@.len() ==> orig.contains(#[trigger] rev@[k]),
            forall|k: int| 0 <= k < out@.len() ==> orig.contains(#[trigger] out@[k]),
        decreases rev@.len(),
    {
        let x = rev.pop().unwrap();
        let mut pos: usize = out.len();
        while pos > 0 && out[pos - 1].0 > x.0
            invariant
                pos <= out@.len(),
                forall|k: int| pos <= k < out@.len() ==> out@[k].0 > x.0,
            decreases pos,
        {
            pos = pos - 1;
        }
        let ghost before = out@;
        out.insert(pos, x);
        proof {
            assert forall|a: int, b: int| 0 <= a < b < out@.len() implies out@[a].0 <= out@[b].0 by {
                if b < pos {
                    assert(out@[a] == before[a] && out@[b] == before[b]);
                } else if b == pos {
                    if a < pos {
                        assert(out@[a] == before[a]);
                        if pos > 0 {
                            assert(before[pos - 1].0 <= x.0);
                            assert(before[a].0 <= before[pos - 1].0 || a == pos - 1);
                        }
                    }
                } else {
                    assert(out@[b] == before[b - 1]);
                    if a < pos {
                        assert(out@[a] == before[a]);
                    } else if a == pos {
                        assert(before[b - 1].0 > x.0);
                    } else {
                        assert(out@[a] == before[a - 1]);
                    }
                }
            }
            assert forall|k: int| 0 <= k < out@.len() implies orig.contains(#[trigger] out@[k]) by {
                if k < pos {
                    assert(out@[k] == before[k]);
                } else if k > pos {
                    assert(out@[k] == before[k - 1]);
                }
            }
        }
    }
    out
}

/// A clickable link from a reference to the definition it names.
#[derive(Clone, Debug)]
pub struct DocumentLink {
    pub start_line: u32,
    pub start_col: u32,
    pub end_line: u32,
    pub end_col: u32,
    pub target_file: FileId,
    pub target_line: u32,
    pub target_col: u32,
    pub tooltip: String,
}

/// The import path with a trailing `::*` (or `:::**`) taken off.
pub open spec fn import_path(name: Seq<char>) -> Seq<char> {
    if name.len() >= 3 && name.subrange(name.len() - 3, name.len() as int) == seq![':', ':', '*'] {
        name.subrange(0, name.len() - 3)
    } else if name.len() >= 5 && name.subrange(name.len() - 5, name.len() as int) == seq![':', ':', ':', '*', '*'] {
        name.subrange(0, name.len() - 5)
    } else {
        name
    }
}

/// Whether `l` links the span given to the symbol `t`, with tooltip `Go to <path>`.
pub open spec fn links_to(l: DocumentLink, sl: u32, sc: u32, el: u32, ec: u32, t: SymbolView, path: Seq<char>) -> bool {
    &&& l.start_line == sl && l.start_col == sc && l.end_line == el && l.end_col == ec
    &&& l.target_file == t.file && l.target_line == t.start_line && l.target_col == t.start_col
    &&& l.tooltip@ == "Go to "@ + path
}

fn strip_import_path(name: &str) -> (r: String)
    ensures
        r@ == import_path(name@),
{
    let c = chars_of(name);
    let n = c.len();
    let wild = n >= 3 && c[n - 3] == ':' && c[n - 2] == ':' && c[n - 1] == '*';
    let deep = n >= 5 && c[n - 5] == ':' && c[n - 4] == ':' && c[n - 3] == ':' && c[n - 2] == '*'
        && c[n - 1] == '*';
    proof {
        if n >= 3 {
            let t = c@.subrange(n - 3, n as int);
            assert(wild ==> t =~= seq![':', ':', '*']);
            if t == seq![':', ':', '*'] {
                assert(t[0] == ':' && t[1] == ':' && t[2] == '*');
            }
        }
        if n >= 5 {
            let t = c@.subrange(n - 5, n as int);
            assert(deep ==> t =~= seq![':', ':', ':', '*', '*']);
            if t == seq![':', ':', ':', '*', '*'] {
                assert(t[0] == ':' && t[1] == ':' && t[2] == ':' && t[3] == '*' && t[4] == '*');
            }
        }
    }
    if wild {
        crate::names::slice_of(name, 0, n - 3)
    } else if deep {
        crate::names::slice_of(name, 0, n - 5)
    } else {
        name.to_owned()
    }
}

/// Whether `l` is a link from its span to the symbol some name names.
pub open spec fn has_target(v: IndexView, l: DocumentLink) -> bool {
    exists|p: Seq<char>| #[trigger] link_ok(v, l, p)
}

/// Whether `l` is a link from its span to the symbol that `p` names.
pub open spec fn link_ok(v: IndexView, l: DocumentLink, p: Seq<char>) -> bool {
    match qualified_lookup(v, p) {
        Some(t) => links_to(l, l.start_line, l.start_col, l.end_line, l.end_col, t, p),
        None => false,
    }
}

fn go_to(path: &str) -> (r: String)
    ensures
        r@ == "Go to "@ + path@,
{
    let mut r = "Go to ".to_owned();
    r.append(path);
    r
}

/// The links of a file: each import to the symbol its path names, and each
/// reference of any other symbol to the symbol its name names, where those
/// exist.
pub fn document_links(index: &SymbolIndex, file: FileId) -> (r: Vec<DocumentLink>)
    requires
        index.wf(),
    ensures
        forall|k: int| 0 <= k < r@.len() ==> has_target(index@, #[trigger] r@[k]),
{
    let mut links: Vec<DocumentLink> = Vec::new();
    let symbols = index.symbols_in_file(file);
    let ghost fs = file_symbols(index@, file);
    let mut i: usize = 0;
    while i < symbols.len()
        invariant
            index.wf(),
            symbols_view(symbols@) == fs,
            fs == file_symbols(index@, file),
            i <= symbols@.len(),
            forall|k: int| 0 <= k < links@.len() ==> has_target(index@, #[trigger] links@[k]),
        decreases symbols@.len() - i,
    {
        let sym = symbols[i];
        assert(symbols_view(symbols@)[i as int] == sym@);
        if sym.kind == SymbolKind::Import {
            let path = strip_import_path(sym.name.as_str());
            match index.lookup_qualified(path.as_str()) {
                Some(target) => {
                    let l = DocumentLink {
                        start_line: sym.start_line,
                        start_col: sym.start_col,
                        end_line: sym.end_line,
                        end_col: sym.end_col,
                        target_file: target.file,
                        target_line: target.start_line,
                        target_col: target.start_col,
                        tooltip: go_to(path.as_str()),
                    };
                    assert(link_ok(index@, l, path@));
                    links.push(l);
                },
                None => {},
            }
        } else {
            let mut k: usize = 0;
            while k < sym.type_refs.len()
                invariant
                    index.wf(),
                    i < fs.len(),
                    fs == file_symbols(index@, file),
                    k <= sym.type_refs@.len(),
                    forall|m: int| 0 <= m < links@.len() ==> has_target(index@, #[trigger] links@[m]),
                decreases sym.type_refs@.len() - k,
            {
                let refs = sym.type_refs[k].as_refs();
                let mut m: usize = 0;
                while m < refs.len()
                    invariant
                        index.wf(),
                        i < fs.len(),
                        m <= refs@.len(),
                        forall|x: int| 0 <= x < links@.len() ==> has_target(index@, #[trigger] links@[x]),
                    decreases refs@.len() - m,
                {
                    let tr = refs[m];
                    match index.lookup_qualified(tr.target.as_str()) {
                        Some(target) => {
                            let l = DocumentLink {
                                start_line: tr.start_line,
                                start_col: tr.start_col,
                                end_line: tr.end_line,
                                end_col: tr.end_col,
                                target_file: target.file,
                                target_line: target.start_line,
                                target_col: target.start_col,
                                tooltip: go_to(tr.target.as_str()),
                            };
                            assert(link_ok(index@, l, tr.target@));
                            links.push(l);
                        },
                        None => {},
                    }
                    m = m + 1;
                }
                k = k + 1;
            }
        }
        i = i + 1;
    }
    links
}

/// A collapsible region.
#[derive(Clone, Debug)]
pub struct FoldingRange {
    pub start_line: u32,
    pub start_col: u32,
    pub end_line: u32,
    pub end_col: u32,
    pub is_comment: bool,
}

/// Whether `f` is the folding range of symbol `s`.
pub open spec fn folds(f: FoldingRange, s: SymbolView) -> bool {
    &&& s.end_line > s.start_line
    &&& f.start_line == s.start_line && f.start_col == s.start_col
    &&& f.end_line == s.end_line && f.end_col == s.end_col
    &&& f.is_comment == (s.kind == SymbolKind::Comment)
}

/// Whether `f` is the folding range of one of `fs`.
pub open spec fn folds_one_of(f: FoldingRange, fs: Seq<SymbolView>) -> bool {
    exists|i: int| 0 <= i < fs.len() && #[trigger] folds(f, fs[i])
}

/// The number of symbols that span more than one line.
pub open spec fn multiline_count(s: Seq<SymbolView>) -> nat
    decreases s.len(),
{
    if s.len() == 0 {
        0
    } else {
        multiline_count(s.drop_last()) + if s.last().end_line > s.last().start_line {
            1nat
        } else {
            0nat
        }
    }
}

/// The folding ranges of a file: one per symbol that spans several lines,
/// ordered by start line.
pub fn folding_ranges(index: &SymbolIndex, file: FileId) -> (r: Vec<FoldingRange>)
    requires
        index.wf(),
    ensures
        r@.len() == multiline_count(file_symbols(index@, file)),
        forall|a: int, b: int| 0 <= a < b < r@.len() ==> r@[a].start_line <= r@[b].start_line,
        forall|k: int| 0 <= k < r@.len() ==> folds_one_of(#[trigger] r@[k], file_symbols(index@, file)),
{
    let symbols = index.symbols_in_file(file);
    let ghost fs = file_symbols(index@, file);
    let mut keyed: Vec<(u64, FoldingRange)> = Vec::new();
    let mut i: usize = 0;
    while i < symbols.len()
        invariant
            symbols_view(symbols@) == fs,
            i <= symbols@.len(),
            keyed@.len() == multiline_count(fs.subrange(0, i as int)),
            forall|k: int| 0 <= k < keyed@.len() ==> (#[trigger] keyed@[k]).0 == keyed@[k].1.start_line as u64
                && folds_one_of(keyed@[k].1, fs),
        decreases symbols@.len() - i,
    {
        let sym = symbols[i];
        assert(symbols_view(symbols@)[i as int] == sym@);
        assert(fs.subrange(0, i + 1).drop_last() =~= fs.subrange(0, i as int));
        if sym.end_line > sym.start_line {
            let f = FoldingRange {
                start_line: sym.start_line,
                start_col: sym.start_col,
                end_line: sym.end_line,
                end_col: sym.end_col,
                is_comment: sym.kind == SymbolKind::Comment,
            };
            assert(folds(f, fs[i as int]));
            assert(folds_one_of(f, fs));
            keyed.push((sym.start_line as u64, f));
        }
        i = i + 1;
    }
    assert(fs.subrange(0, fs.len() as int) =~= fs);
    let sorted = sort_by_key(keyed);
    let mut out: Vec<FoldingRange> = Vec::new();
    let mut sorted = sorted;
    let ghost s = sorted@;
    let mut rev: Vec<FoldingRange> = Vec::new();
    while sorted.len() > 0
        invariant
            sorted@ == s.subrange(0, sorted@.len() as int),
            rev@.len() + sorted@.len() == s.len(),
            forall|k: int| 0 <= k < rev@.len() ==> rev@[k] == s[s.len() - 1 - k].1,
        decreases sorted@.len(),
    {
        let (_, f) = sorted.pop().unwrap();
        rev.push(f);
    }
    while rev.len() > 0
        invariant
            rev@.len() + out@.len() == s.len(),
            forall|k: int| 0 <= k < rev@.len() ==> rev@[k] == s[s.len() - 1 - k].1,
            forall|k: int| 0 <= k < out@.len() ==> out@[k] == s[k].1,
        decreases rev@.len(),
    {
        let f = rev.pop().unwrap();
        out.push(f);
    }
    proof {
        assert forall|a: int, b: int| 0 <= a < b < out@.len() implies out@[a].start_line <= out@[b].start_line by {
            assert(s[a].0 <= s[b].0);
            assert(keyed@.contains(s[a]));
            assert(keyed@.contains(s[b]));
            let ja = choose|j: int| 0 <= j < keyed@.len() && keyed@[j] == s[a];
            let jb = choose|j: int| 0 <= j < keyed@.len() && keyed@[j] == s[b];
            assert(keyed@[ja].0 == keyed@[ja].1.start_line as u64);
            assert(keyed@[jb].0 == keyed@[jb].1.start_line as u64);
        }
        assert forall|k: int| 0 <= k < out@.len() implies folds_one_of(#[trigger] out@[k], fs) by {
            assert(keyed@.contains(s[k]));
            let j = choose|j: int| 0 <= j < keyed@.len() && keyed@[j] == s[k];
            assert(folds_one_of(keyed@[j].1, fs));
        }
    }
    out
}

/// A selectable region around a position.
#[derive(Clone, Debug)]
pub struct SelectionRange {
    pub start_line: u32,
    pub start_col: u32,
    pub end_line: u32,
    pub end_col: u32,
}

/// Whether the span of `s` holds the position `line`, `col`.
pub open spec fn holds_position(s: SymbolView, line: u32, col: u32) -> bool {
    &&& (line > s.start_line || (line == s.start_line && col >= s.start_col))
    &&& (line < s.end_line || (line == s.end_line && col <= s.end_col))
}

/// Whether `r` is the span of `s`.
pub open spec fn spans(r: SelectionRange, s: SymbolView) -> bool {
    r.start_line == s.start_line && r.start_col == s.start_col && r.end_line == s.end_line
        && r.end_col == s.end_col
}

/// Whether `r` is the span of one of `fs` that holds the position.
pub open spec fn spans_one_of(r: SelectionRange, fs: Seq<SymbolView>, line: u32, col: u32) -> bool {
    exists|i: int| 0 <= i < fs.len() && #[trigger] spans(r, fs[i]) && holds_position(fs[i], line, col)
}

/// A rough size of a range, for ordering: a hundred per line spanned plus
/// the columns.
pub open spec fn size_of(r: SelectionRange) -> u64 {
    let lines: u64 = if r.end_line >= r.start_line { (r.end_line - r.start_line) as u64 } else { 0 };
    let cols: u64 = if lines == 0 {
        if r.end_col >= r.start_col { (r.end_col - r.start_col) as u64 } else { 0 }
    } else {
        (r.end_col as u64 + 100) as u64
    };
    (lines * 100 + cols) as u64
}

/// A rough size of a range, for ordering.
fn range_size(range: &SelectionRange) -> (r: u64)
    ensures
        r == size_of(*range),
{
    let lines: u64 = range.end_line.saturating_sub(range.start_line) as u64;
    let cols: u64 = if lines == 0 {
        range.end_col.saturating_sub(range.start_col) as u64
    } else {
        range.end_col as u64 + 100
    };
    lines * 100 + cols
}

/// Whether two ranges have the same bounds.
pub open spec fn same_bounds(a: SelectionRange, b: SelectionRange) -> bool {
    a.start_line == b.start_line && a.start_col == b.start_col && a.end_line == b.end_line
        && a.end_col == b.end_col
}

/// The spans of the file's symbols that hold the position, smallest first,
/// without repeating the same bounds twice in a row.
pub fn selection_ranges(index: &SymbolIndex, file: FileId, line: u32, col: u32) -> (r: Vec<SelectionRange>)
    requires
        index.wf(),
    ensures
        forall|a: int, b: int| 0 <= a < b < r@.len() ==> size_of(r@[a]) <= size_of(r@[b]),
        forall|k: int| 0 <= k < r@.len() ==> spans_one_of(#[trigger] r@[k], file_symbols(index@, file), line, col),
        forall|k: int| 0 < k < r@.len() ==> !same_bounds(r@[k - 1], #[trigger] r@[k]),
{
    let symbols = index.symbols_in_file(file);
    let ghost fs = file_symbols(index@, file);
    let mut keyed: Vec<(u64, SelectionRange)> = Vec::new();
    let mut i: usize = 0;
    while i < symbols.len()
        invariant
            symbols_view(symbols@) == fs,
            i <= symbols@.len(),
            forall|k: int| 0 <= k < keyed@.len() ==> (#[trigger] keyed@[k]).0 == size_of(keyed@[k].1)
                && spans_one_of(keyed@[k].1, fs, line, col),
        decreases symbols@.len() - i,
    {
        let sym = symbols[i];
        assert(symbols_view(symbols@)[i as int] == sym@);
        let after_start = line > sym.start_line || (line == sym.start_line && col >= sym.start_col);
        let before_end = line < sym.end_line || (line == sym.end_line && col <= sym.end_col);
        if after_start && before_end {
            let range = SelectionRange {
                start_line: sym.start_line,
                start_col: sym.start_col,
                end_line: sym.end_line,
                end_col: sym.end_col,
            };
            let size = range_size(&range);
            assert(spans(range, fs[i as int]));
            assert(spans_one_of(range, fs, line, col));
            keyed.push((size, range));
        }
        i = i + 1;
    }
    let mut sorted = sort_by_key(keyed);
    let ghost s = sorted@;
    let mut rev: Vec<SelectionRange> = Vec::new();
    while sorted.len() > 0
        invariant
            sorted@ == s.subrange(0, sorted@.len() as int),
            rev@.len() + sorted@.len() == s.len(),
            forall|k: int| 0 <= k < rev@.len() ==> rev@[k] == s[s.len() - 1 - k].1,
        decreases sorted@.len(),
    {
        let (_, f) = sorted.pop().unwrap();
        rev.push(f);
    }
    proof {
        assert forall|k: int| 0 <= k < s.len() implies (#[trigger] s[k]).0 == size_of(s[k].1) && spans_one_of(s[k].1, fs, line, col) by {
            assert(keyed@.contains(s[k]));
            let j = choose|j: int| 0 <= j < keyed@.len() && keyed@[j] == s[k];
            assert(keyed@[j].0 == size_of(keyed@[j].1));
        }
    }
    let mut out: Vec<SelectionRange> = Vec::new();
    let ghost taken: int = 0;
    while rev.len() > 0
        invariant
            forall|k: int| 0 <= k < rev@.len() ==> rev@[k] == s[s.len() - 1 - k].1,
            rev@.len() <= s.len(),
            forall|k: int| 0 <= k < s.len() ==> (#[trigger] s[k]).0 == size_of(s[k].1) && spans_one_of(s[k].1, fs, line, col),
            keys_sorted(s),
            forall|k: int| 0 <= k < out@.len() ==> exists|j: int| 0 <= j < s.len() - rev@.len() && #[trigger] out@[k] == s[j].1,
            out@.len() > 0 ==> out@.last() == s[s.len() - rev@.len() - 1].1,
            out@.len() == 0 ==> rev@.len() == s.len(),
            forall|a: int, b: int| 0 <= a < b < out@.len() ==> size_of(out@[a]) <= size_of(out@[b]),
            forall|k: int| 0 < k < out@.len() ==> !same_bounds(out@[k - 1], #[trigger] out@[k]),
        decreases rev@.len(),
    {
        let f = rev.pop().unwrap();
        let ghost idx = s.len() - rev@.len() - 1;
        assert(f == s[idx].1);
        let n = out.len();
        let dup = n > 0 && out[n - 1].start_line == f.start_line && out[n - 1].start_col == f.start_col
            && out[n - 1].end_line == f.end_line && out[n - 1].end_col == f.end_col;
        if !dup {
            proof {
                assert forall|a: int| 0 <= a < out@.len() implies size_of(out@[a]) <= size_of(f) by {
                    let j = choose|j: int| 0 <= j < s.len() - rev@.len() - 1 && out@[a] == s[j].1;
                    assert(s[j].0 <= s[idx].0);
                }
            }
            out.push(f);
        }
    }
    proof {
        assert forall|k: int| 0 <= k < out@.len() implies spans_one_of(#[trigger] out@[k], fs, line, col) by {
            let j = choose|j: int| 0 <= j < s.len() - rev@.len() && out@[k] == s[j].1;
        }
    }
    out
}

/// The kind of an inlay hint.
#[derive(Copy, Clone, PartialEq, Eq, Debug, Structural)]
pub enum InlayHintKind {
    Type,
    Parameter,
}

/// A hint shown inline in the editor.
#[derive(Clone, Debug)]
pub struct InlayHint {
    pub line: u32,
    pub col: u32,
    pub label: String,
    pub kind: InlayHintKind,
    pub padding_left: bool,
    pub padding_right: bool,
}

/// Whether `s` lies within the range given (start line and column, end line
/// and column), or there is no range.
pub open spec fn within(s: SymbolView, range: Option<(u32, u32, u32, u32)>) -> bool {
    match range {
        Some((sl, sc, el, ec)) => !(s.start_line < sl || s.end_line > el || (s.start_line == sl
            && s.start_col < sc) || (s.end_line == el && s.end_col > ec)),
        None => true,
    }
}

/// Whether `s` gets a type hint: a usage with an explicit type.
pub open spec fn hinted(s: SymbolView, range: Option<(u32, u32, u32, u32)>) -> bool {
    within(s, range) && is_usage_kind(s.kind) && s.supertypes.len() > 0
}

/// Whether `h` is the type hint of `s`: `: <first supertype>` on its line.
pub open spec fn hint_of(h: InlayHint, s: SymbolView) -> bool {
    &&& h.line == s.start_line
    &&& h.label@ == ": "@ + s.supertypes[0]
    &&& h.kind == InlayHintKind::Type
    &&& !h.padding_left && h.padding_right
}

/// Whether `h` is the hint of one of `fs`.
pub open spec fn hint_of_one(h: InlayHint, fs: Seq<SymbolView>, range: Option<(u32, u32, u32, u32)>) -> bool {
    exists|i: int| 0 <= i < fs.len() && hinted(fs[i], range) && #[trigger] hint_of(h, fs[i])
}

/// The number of symbols that get a type hint.
pub open spec fn hinted_count(s: Seq<SymbolView>, range: Option<(u32, u32, u32, u32)>) -> nat
    decreases s.len(),
{
    if s.len() == 0 {
        0
    } else {
        hinted_count(s.drop_last(), range) + if hinted(s.last(), range) {
            1nat
        } else {
            0nat
        }
    }
}

/// The inlay hints of a file: for each usage with an explicit type (within
/// the range, where one is given), its first supertype after its name.
pub fn inlay_hints(index: &SymbolIndex, file: FileId, range: Option<(u32, u32, u32, u32)>) -> (r: Vec<InlayHint>)
    requires
        index.wf(),
    ensures
        forall|k: int| 0 <= k < r@.len() ==> hint_of_one(#[trigger] r@[k], file_symbols(index@, file), range),
        r@.len() == hinted_count(file_symbols(index@, file), range),
{
    let symbols = index.symbols_in_file(file);
    let ghost fs = file_symbols(index@, file);
    let mut hints: Vec<InlayHint> = Vec::new();
    let mut i: usize = 0;
    while i < symbols.len()
        invariant
            symbols_view(symbols@) == fs,
            fs == file_symbols(index@, file),
            i <= symbols@.len(),
            forall|k: int| 0 <= k < hints@.len() ==> hint_of_one(#[trigger] hints@[k], fs, range),
            hints@.len() == hinted_count(fs.subrange(0, i as int), range),
        decreases symbols@.len() - i,
    {
        let symbol = symbols[i];
        assert(symbols_view(symbols@)[i as int] == symbol@);
        assert(fs.subrange(0, i + 1).drop_last() =~= fs.subrange(0, i as int));
        let inside = match range {
            Some((start_line, start_col, end_line, end_col)) => !(symbol.start_line < start_line
                || symbol.end_line > end_line || (symbol.start_line == start_line && symbol.start_col
                < start_col) || (symbol.end_line == end_line && symbol.end_col > end_col)),
            None => true,
        };
        if inside && symbol.kind.is_usage() && symbol.supertypes.len() > 0 {
            let mut label = ": ".to_owned();
            label.append(symbol.supertypes[0].as_str());
            let hint_col = symbol.start_col.wrapping_add(symbol.name.as_str().len() as u32);
            let h = InlayHint {
                line: symbol.start_line,
                col: hint_col,
                label,
                kind: InlayHintKind::Type,
                padding_left: false,
                padding_right: true,
            };
            assert(hint_of(h, fs[i as int]));
            assert(hint_of_one(h, fs, range));
            hints.push(h);
        }
        i = i + 1;
    }
    assert(fs.subrange(0, fs.len() as int) =~= fs);
    hints
}

/// The token types of semantic highlighting.
#[derive(Copy, Clone, PartialEq, Eq, Debug, Structural)]
pub enum TokenType {
    Namespace,
    Type,
    Variable,
    Property,
    Keyword,
    Comment,
}

/// The token type that highlights a symbol of kind `k`.
pub open spec fn token_type_of(k: SymbolKind) -> TokenType {
    if k == SymbolKind::Package || k == SymbolKind::Import {
        TokenType::Namespace
    } else if crate::symbols::is_definition_kind(k) {
        TokenType::Type
    } else if is_usage_kind(k) {
        TokenType::Property
    } else if k == SymbolKind::Comment {
        TokenType::Comment
    } else {
        TokenType::Variable
    }
}

impl TokenType {
    /// The token type index of the editor protocol.
    pub fn to_lsp_index(self) -> (r: u32)
        ensures
            r == match self {
                TokenType::Namespace => 0u32,
                TokenType::Type => 1,
                TokenType::Variable => 2,
                TokenType::Property => 3,
                TokenType::Keyword => 4,
                TokenType::Comment => 5,
            },
    {
        match self {
            TokenType::Namespace => 0,
            TokenType::Type => 1,
            TokenType::Variable => 2,
            TokenType::Property => 3,
            TokenType::Keyword => 4,
            TokenType::Comment => 5,
        }
    }

    /// The token type that highlights a symbol of `kind`.
    pub fn of_kind(kind: SymbolKind) -> (r: TokenType)
        ensures
            r == token_type_of(kind),
    {
        if kind == SymbolKind::Package || kind == SymbolKind::Import {
            TokenType::Namespace
        } else if kind.is_definition() {
            TokenType::Type
        } else if kind.is_usage() {
            TokenType::Property
        } else if kind == SymbolKind::Comment {
            TokenType::Comment
        } else {
            TokenType::Variable
        }
    }
}

impl From<SymbolKind> for TokenType {
    fn from(kind: SymbolKind) -> (r: TokenType) {
        TokenType::of_kind(kind)
    }
}

impl vstd::std_specs::convert::FromSpecImpl<SymbolKind> for TokenType {
    open spec fn obeys_from_spec() -> bool {
        true
    }

    open spec fn from_spec(v: SymbolKind) -> TokenType {
        token_type_of(v)
    }
}

/// A semantic token for highlighting.
#[derive(Clone, Debug)]
pub struct SemanticToken {
    pub line: u32,
    pub col: u32,
    pub length: u32,
    pub token_type: TokenType,
}

/// The position key of a token: line, then column.
pub open spec fn position_key(t: SemanticToken) -> u64 {
    (t.line as u64 * 0x1_0000_0000 + t.col as u64) as u64
}

/// The number of tokens a symbol gives: its name and each part of each of
/// its references.
pub open spec fn token_count(s: SymbolView) -> nat {
    1 + part_count(s.type_refs, s.type_refs.len() as int)
}

/// The number of reference parts among the first `n` references.
pub open spec fn part_count(refs: Seq<TypeRefKindView>, n: int) -> nat
    decreases n,
{
    if n <= 0 {
        0
    } else {
        part_count(refs, n - 1) + parts_of(refs[n - 1]).len()
    }
}

/// The number of tokens that the symbols give.
pub open spec fn tokens_total(s: Seq<SymbolView>) -> nat
    decreases s.len(),
{
    if s.len() == 0 {
        0
    } else {
        tokens_total(s.drop_last()) + token_count(s.last())
    }
}

/// The semantic tokens of a file, in order of position: one for each
/// symbol's name (typed by its kind), one of type `Type` for each part of
/// each of its references.
pub fn semantic_tokens(index: &SymbolIndex, file: FileId) -> (r: Vec<SemanticToken>)
    requires
        index.wf(),
    ensures
        forall|a: int, b: int| 0 <= a < b < r@.len() ==> position_key(r@[a]) <= position_key(r@[b]),
        r@.len() == tokens_total(file_symbols(index@, file)),
{
    let symbols = index.symbols_in_file(file);
    let ghost fs = file_symbols(index@, file);
    let mut keyed: Vec<(u64, SemanticToken)> = Vec::new();
    let mut i: usize = 0;
    while i < symbols.len()
        invariant
            symbols_view(symbols@) == fs,
            i <= symbols@.len(),
            forall|k: int| 0 <= k < keyed@.len() ==> (#[trigger] keyed@[k]).0 == position_key(keyed@[k].1),
            keyed@.len() == tokens_total(fs.subrange(0, i as int)),
        decreases symbols@.len() - i,
    {
        let symbol = symbols[i];
        assert(symbols_view(symbols@)[i as int] == symbol@);
        assert(fs.subrange(0, i + 1).drop_last() =~= fs.subrange(0, i as int));
        let ghost base = keyed@.len();
        let name_len = symbol.name.as_str().len() as u32;
        let t = SemanticToken {
            line: symbol.start_line,
            col: symbol.start_col,
            length: name_len,
            token_type: TokenType::of_kind(symbol.kind),
        };
        keyed.push((symbol.start_line as u64 * 0x1_0000_0000 + symbol.start_col as u64, t));
        let mut k: usize = 0;
        while k < symbol.type_refs.len()
            invariant
                k <= symbol.type_refs@.len(),
                forall|m: int| 0 <= m < keyed@.len() ==> (#[trigger] keyed@[m]).0 == position_key(keyed@[m].1),
                keyed@.len() == base + 1 + part_count(symbol@.type_refs, k as int),
            decreases symbol.type_refs@.len() - k,
        {
            let refs = symbol.type_refs[k].as_refs();
            let ghost before_parts = keyed@.len();
            assert(symbol@.type_refs[k as int] == symbol.type_refs@[k as int]@);
            let mut m: usize = 0;
            while m < refs.len()
                invariant
                    m <= refs@.len(),
                    forall|x: int| 0 <= x < keyed@.len() ==> (#[trigger] keyed@[x]).0 == position_key(keyed@[x].1),
                    keyed@.len() == before_parts + m,
                decreases refs@.len() - m,
            {
                let tr = refs[m];
                let width = tr.end_col.saturating_sub(tr.start_col);
                let t = SemanticToken {
                    line: tr.start_line,
                    col: tr.start_col,
                    length: if width > 1 { width } else { 1 },
                    token_type: TokenType::Type,
                };
                keyed.push((tr.start_line as u64 * 0x1_0000_0000 + tr.start_col as u64, t));
                m = m + 1;
            }
            k = k + 1;
        }
        i = i + 1;
    }
    assert(fs.subrange(0, fs.len() as int) =~= fs);
    let mut sorted = sort_by_key(keyed);
    let ghost s = sorted@;
    proof {
        assert forall|k: int| 0 <= k < s.len() implies (#[trigger] s[k]).0 == position_key(s[k].1) by {
            assert(keyed@.contains(s[k]));
            let j = choose|j: int| 0 <= j < keyed@.len() && keyed@[j] == s[k];
            assert(keyed@[j].0 == position_key(keyed@[j].1));
        }
    }
    let mut rev: Vec<SemanticToken> = Vec::new();
    while sorted.len() > 0
        invariant
            sorted@ == s.subrange(0, sorted@.len() as int),
            rev@.len() + sorted@.len() == s.len(),
            forall|k: int| 0 <= k < rev@.len() ==> rev@[k] == s[s.len() - 1 - k].1,
        decreases sorted@.len(),
    {
        let (_, t) = sorted.pop().unwrap();
        rev.push(t);
    }
    let mut out: Vec<SemanticToken> = Vec::new();
    while rev.len() > 0
        invariant
            rev@.len() + out@.len() == s.len(),
            forall|k: int| 0 <= k < rev@.len() ==> rev@[k] == s[s.len() - 1 - k].1,
            forall|k: int| 0 <= k < out@.len() ==> out@[k] == s[k].1,
        decreases rev@.len(),
    {
        let t = rev.pop().unwrap();
        out.push(t);
    }
    proof {
        assert forall|a: int, b: int| 0 <= a < b < out@.len() implies position_key(out@[a]) <= position_key(out@[b]) by {
            assert(s[a].0 <= s[b].0);
        }
    }
    out
}

} // verus!

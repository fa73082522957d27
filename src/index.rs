//! The symbol index: a store of (file, symbol) entries with lookups by
//! qualified name, simple name, file and kind, and the table of per-scope
//! visibility maps.
//!
//! Removing a file's symbols compacts the store. No position in the store is
//! handed out, and the visibility maps are always rebuilt in full, so the
//! lookups behave exactly as with a store that keeps inert holes.
use vstd::prelude::*;

use crate::base::FileId;
use crate::names::same_text;
use crate::symbols::{HirSymbol, SymbolView, is_definition_kind};
use crate::visibility::{ScopeVisibility, VisibilityView};

verus! {

/// An entry of the store: the file it was added under and the symbol.
pub type Entry = (FileId, SymbolView);

/// The mathematical value of a [`SymbolIndex`].
pub struct IndexView {
    /// The live entries in the order they were added.
    pub entries: Seq<Entry>,
    /// The files that have been added and not removed, in order.
    pub files: Seq<FileId>,
    /// The visibility map of each scope, as last built.
    pub scopes: Map<Seq<char>, VisibilityView>,
    /// Whether the visibility maps are stale.
    pub dirty: bool,
}

/// The entries of `e` that were not added under `f`, in order.
pub open spec fn keep_others(e: Seq<Entry>, f: FileId) -> Seq<Entry>
    decreases e.len(),
{
    if e.len() == 0 {
        e
    } else if e.last().0 == f {
        keep_others(e.drop_last(), f)
    } else {
        keep_others(e.drop_last(), f).push(e.last())
    }
}

/// The files of `s` other than `f`, in order.
pub open spec fn keep_other_files(s: Seq<FileId>, f: FileId) -> Seq<FileId>
    decreases s.len(),
{
    if s.len() == 0 {
        s
    } else if s.last() == f {
        keep_other_files(s.drop_last(), f)
    } else {
        keep_other_files(s.drop_last(), f).push(s.last())
    }
}

/// The symbols `syms` as entries added under `f`.
pub open spec fn tagged(f: FileId, syms: Seq<SymbolView>) -> Seq<Entry> {
    Seq::new(syms.len(), |i: int| (f, syms[i]))
}

/// The index after the symbols of `f` are removed.
pub open spec fn removed(v: IndexView, f: FileId) -> IndexView {
    IndexView {
        entries: keep_others(v.entries, f),
        files: keep_other_files(v.files, f),
        scopes: v.scopes,
        dirty: v.dirty || v.files.contains(f),
    }
}

/// The index after `syms` are added as the symbols of `f`.
pub open spec fn added(v: IndexView, f: FileId, syms: Seq<SymbolView>) -> IndexView {
    IndexView {
        entries: keep_others(v.entries, f) + tagged(f, syms),
        files: keep_other_files(v.files, f).push(f),
        scopes: v.scopes,
        dirty: true,
    }
}

/// The views of a list of symbols.
pub open spec fn symbol_views(v: Seq<HirSymbol>) -> Seq<SymbolView> {
    v.map_values(|s: HirSymbol| s@)
}

/// Which entries a lookup selects.
pub enum Query {
    /// Entries with this qualified name.
    Qualified(Seq<char>),
    /// Definition-kind entries with this qualified name.
    Definition(Seq<char>),
    /// Entries with this simple name.
    Simple(Seq<char>),
    /// Entries added under this file.
    File(FileId),
    /// Entries that their qualified name stands for.
    Latest,
    /// Definition entries that their qualified name stands for.
    LatestDefinition,
}

/// Whether the entry at `i` is the one its qualified name stands for.
pub open spec fn is_latest(e: Seq<Entry>, i: int) -> bool {
    forall|j: int| i < j < e.len() ==> e[j].1.qualified_name != e[i].1.qualified_name
}

/// Whether the entry at `i` is the definition its qualified name stands for.
pub open spec fn is_latest_definition(e: Seq<Entry>, i: int) -> bool {
    &&& is_definition_kind(e[i].1.kind)
    &&& forall|j: int|
        i < j < e.len() ==> !(e[j].1.qualified_name == e[i].1.qualified_name
            && is_definition_kind(e[j].1.kind))
}

/// Whether the entry at `i` is selected by `q`.
pub open spec fn selects(e: Seq<Entry>, q: Query, i: int) -> bool {
    match q {
        Query::Qualified(n) => e[i].1.qualified_name == n,
        Query::Definition(n) => e[i].1.qualified_name == n && is_definition_kind(e[i].1.kind),
        Query::Simple(n) => e[i].1.name == n,
        Query::File(f) => e[i].0 == f,
        Query::Latest => is_latest(e, i),
        Query::LatestDefinition => is_latest_definition(e, i),
    }
}

/// The symbols of the entries among the first `n` that `q` selects, in order.
pub open spec fn collect(e: Seq<Entry>, q: Query, n: int) -> Seq<SymbolView>
    decreases n,
{
    if n <= 0 {
        Seq::empty()
    } else if selects(e, q, n - 1) {
        collect(e, q, n - 1).push(e[n - 1].1)
    } else {
        collect(e, q, n - 1)
    }
}

/// The last position below `n` that `q` selects.
pub open spec fn last_below(e: Seq<Entry>, q: Query, n: int) -> Option<int>
    decreases n,
{
    if n <= 0 {
        None
    } else if selects(e, q, n - 1) {
        Some(n - 1)
    } else {
        last_below(e, q, n - 1)
    }
}

/// The symbol at the last position that `q` selects.
pub open spec fn last_symbol(e: Seq<Entry>, q: Query) -> Option<SymbolView> {
    match last_below(e, q, e.len() as int) {
        Some(i) => Some(e[i].1),
        None => None,
    }
}

/// The listings that [`SymbolIndex`] offers.
#[derive(Copy, Clone, PartialEq, Eq, Structural)]
enum Listing {
    Simple,
    File,
    Latest,
    LatestDefinition,
}

/// The entries a listing selects, given the name or file it is about.
spec fn listing_query(l: Listing, key: Seq<char>, file: FileId) -> Query {
    match l {
        Listing::Simple => Query::Simple(key),
        Listing::File => Query::File(file),
        Listing::Latest => Query::Latest,
        Listing::LatestDefinition => Query::LatestDefinition,
    }
}

/// The entry for qualified name `q`: the last one added.
pub open spec fn qualified_lookup(v: IndexView, q: Seq<char>) -> Option<SymbolView> {
    last_symbol(v.entries, Query::Qualified(q))
}

/// The definition-kind entry for qualified name `q`: the last one added.
pub open spec fn definition_lookup(v: IndexView, q: Seq<char>) -> Option<SymbolView> {
    last_symbol(v.entries, Query::Definition(q))
}

/// All symbols with simple name `n`, in the order added.
pub open spec fn simple_lookup(v: IndexView, n: Seq<char>) -> Seq<SymbolView> {
    collect(v.entries, Query::Simple(n), v.entries.len() as int)
}

/// All symbols added under file `f`, in order.
pub open spec fn file_symbols(v: IndexView, f: FileId) -> Seq<SymbolView> {
    collect(v.entries, Query::File(f), v.entries.len() as int)
}

/// One symbol per qualified name (the one it stands for), in the order added.
pub open spec fn distinct_symbols(v: IndexView) -> Seq<SymbolView> {
    collect(v.entries, Query::Latest, v.entries.len() as int)
}

/// One definition per qualified name, in the order added.
pub open spec fn distinct_definitions(v: IndexView) -> Seq<SymbolView> {
    collect(v.entries, Query::LatestDefinition, v.entries.len() as int)
}

/// Whether no two visibility maps share a scope.
pub open spec fn scopes_unique(s: Seq<ScopeVisibility>) -> bool {
    forall|i: int, j: int| 0 <= i < j < s.len() ==> s[i]@.scope != s[j]@.scope
}

/// The table of visibility maps, by scope.
pub open spec fn scope_map(s: Seq<ScopeVisibility>) -> Map<Seq<char>, VisibilityView>
    decreases s.len(),
{
    if s.len() == 0 {
        Map::empty()
    } else {
        scope_map(s.drop_last()).insert(s.last()@.scope, s.last()@)
    }
}

/// What the table of visibility maps holds.
pub proof fn lemma_scope_map(s: Seq<ScopeVisibility>)
    requires
        scopes_unique(s),
    ensures
        forall|k: Seq<char>| #[trigger]
            scope_map(s).contains_key(k) <==> exists|i: int| 0 <= i < s.len() && s[i]@.scope == k,
        forall|i: int| 0 <= i < s.len() ==> #[trigger] scope_map(s)[s[i]@.scope] == s[i]@,
    decreases s.len(),
{
    if s.len() > 0 {
        let t = s.drop_last();
        lemma_scope_map(t);
        assert forall|k: Seq<char>| #[trigger]
            scope_map(s).contains_key(k) <==> exists|i: int|
                0 <= i < s.len() && s[i]@.scope == k by {
            if scope_map(t).contains_key(k) {
                let i = choose|i: int| 0 <= i < t.len() && t[i]@.scope == k;
                assert(s[i]@.scope == k);
            }
            if exists|i: int| 0 <= i < s.len() && s[i]@.scope == k {
                let i = choose|i: int| 0 <= i < s.len() && s[i]@.scope == k;
                if i < s.len() - 1 {
                    assert(t[i]@.scope == k);
                }
            }
        }
        assert forall|i: int| 0 <= i < s.len() implies #[trigger] scope_map(s)[s[i]@.scope]
            == s[i]@ by {
            if i < s.len() - 1 {
                assert(t[i] == s[i]);
                assert(s[i]@.scope != s[s.len() - 1]@.scope);
                assert(scope_map(t)[t[i]@.scope] == t[i]@);
            }
        }
    }
}

/// An index of all symbols across files.
#[derive(Clone, Debug)]
pub struct SymbolIndex {
    pub(crate) symbols: Vec<HirSymbol>,
    pub(crate) owners: Vec<FileId>,
    pub(crate) files: Vec<FileId>,
    pub(crate) visibility_map: Vec<ScopeVisibility>,
    pub(crate) visibility_dirty: bool,
}

impl View for SymbolIndex {
    type V = IndexView;

    closed spec fn view(&self) -> IndexView {
        IndexView {
            entries: Seq::new(
                self.symbols@.len(),
                |i: int| (self.owners@[i], self.symbols@[i]@),
            ),
            files: self.files@,
            scopes: scope_map(self.visibility_map@),
            dirty: self.visibility_dirty,
        }
    }
}

/// The view of an optional symbol reference.
pub open spec fn opt_symbol(o: Option<&HirSymbol>) -> Option<SymbolView> {
    match o {
        Some(s) => Some(s@),
        None => None,
    }
}

/// The views of a list of symbol references.
pub open spec fn symbols_view(v: Seq<&HirSymbol>) -> Seq<SymbolView> {
    v.map_values(|s: &HirSymbol| s@)
}

impl SymbolIndex {
    /// The invariant that ties the fields together.
    pub closed spec fn wf(&self) -> bool {
        &&& self.symbols@.len() == self.owners@.len()
        &&& self.files@.no_duplicates()
        &&& forall|i: int| 0 <= i < self.owners@.len() ==> self.files@.contains(#[trigger] self.owners@[i])
        &&& scopes_unique(self.visibility_map@)
        &&& forall|i: int| 0 <= i < self.visibility_map@.len() ==> (#[trigger] self.visibility_map@[i]).wf()
    }

    /// Whether every visibility map in the table is well formed.
    pub closed spec fn maps_wf(&self) -> bool {
        forall|i: int| 0 <= i < self.visibility_map@.len() ==> (#[trigger] self.visibility_map@[i]).wf()
    }

    /// An empty index.
    pub fn new() -> (r: SymbolIndex)
        ensures
            r.wf(),
            r@.entries.len() == 0,
            r@.files.len() == 0,
            r@.scopes == Map::<Seq<char>, VisibilityView>::empty(),
            !r@.dirty,
    {
        let r = SymbolIndex {
            symbols: Vec::new(),
            owners: Vec::new(),
            files: Vec::new(),
            visibility_map: Vec::new(),
            visibility_dirty: false,
        };
        assert(r@.entries =~= Seq::empty());
        r
    }

    /// What the invariant is made of.
    pub(crate) proof fn reveal_wf(&self)
        requires
            self.wf(),
        ensures
            self.symbols@.len() == self.owners@.len(),
            self.files@.no_duplicates(),
            forall|i: int| 0 <= i < self.owners@.len() ==> self.files@.contains(#[trigger] self.owners@[i]),
            scopes_unique(self.visibility_map@),
            forall|i: int| 0 <= i < self.visibility_map@.len() ==> (#[trigger] self.visibility_map@[i]).wf(),
            self@.entries.len() == self.symbols@.len(),
            self@.scopes == scope_map(self.visibility_map@),
            self@.files == self.files@,
            self@.dirty == self.visibility_dirty,
    {
    }

    /// The invariant holds of its parts.
    pub(crate) proof fn establish_wf(&self)
        requires
            self.symbols@.len() == self.owners@.len(),
            self.files@.no_duplicates(),
            forall|i: int| 0 <= i < self.owners@.len() ==> self.files@.contains(#[trigger] self.owners@[i]),
            scopes_unique(self.visibility_map@),
            forall|i: int| 0 <= i < self.visibility_map@.len() ==> (#[trigger] self.visibility_map@[i]).wf(),
        ensures
            self.wf(),
    {
    }

    /// The view in terms of the fields.
    pub(crate) proof fn reveal_view(&self)
        ensures
            self@.entries.len() == self.symbols@.len(),
            forall|i: int| 0 <= i < self.symbols@.len() ==> #[trigger] self@.entries[i] == (self.owners@[i], self.symbols@[i]@),
            self@.scopes == scope_map(self.visibility_map@),
            self@.files == self.files@,
            self@.dirty == self.visibility_dirty,
    {
    }

    pub(crate) proof fn lemma_entry_parts(&self, i: int)
        requires
            0 <= i < self.symbols@.len(),
        ensures
            self@.entries[i] == (self.owners@[i], self.symbols@[i]@),
            self@.entries.len() == self.symbols@.len(),
            self@.scopes == scope_map(self.visibility_map@),
            self@.files == self.files@,
            self@.dirty == self.visibility_dirty,
    {
    }

    proof fn lemma_entry(&self, i: int)
        requires
            0 <= i < self.symbols@.len(),
        ensures
            self@.entries[i] == (self.owners@[i], self.symbols@[i]@),
    {
    }

    /// Adds the symbols of `file`, replacing those it had: the entries of
    /// other files stay in order and the new ones follow; the visibility maps
    /// become stale.
    pub fn add_file(&mut self, file: FileId, symbols: Vec<HirSymbol>)
        requires
            old(self).wf(),
        ensures
            final(self).wf(),
            final(self)@.entries == keep_others(old(self)@.entries, file) + Seq::new(
                symbols@.len(),
                |i: int| (file, symbols@[i]@),
            ),
            final(self)@.files == keep_other_files(old(self)@.files, file).push(file),
            final(self)@.scopes == old(self)@.scopes,
            final(self)@.dirty,
            final(self)@ == added(old(self)@, file, symbol_views(symbols@)),
    {
        self.remove_file(file);
        self.visibility_dirty = true;
        let ghost mid = self@.entries;
        let ghost mid_files = self.files@;
        let ghost mid_vis = self.visibility_map@;
        let symbols = symbols;
        let n = symbols.len();
        let mut k: usize = 0;
        while k < n
            invariant
                n == symbols@.len(),
                k <= n,
                self.symbols@.len() == self.owners@.len(),
                self@.entries == mid + Seq::new(k as nat, |i: int| (file, symbols@[i]@)),
                self.files@ == mid_files,
                self.visibility_map@ == mid_vis,
                self.visibility_dirty,
                forall|i: int|
                    0 <= i < self.owners@.len() ==> #[trigger] self.owners@[i] == file
                        || mid_files.contains(self.owners@[i]),
            decreases n - k,
        {
            let ghost before = self@.entries;
            let s = symbols[k].duplicate();
            self.symbols.push(s);
            self.owners.push(file);
            proof {
                assert(self@.entries =~= before.push((file, symbols@[k as int]@)));
                assert(self@.entries =~= mid + Seq::new((k + 1) as nat, |i: int| (file, symbols@[i]@)));
            }
            k = k + 1;
        }
        self.files.push(file);
        proof {
            assert(!mid_files.contains(file));
            assert forall|i: int| 0 <= i < self.owners@.len() implies self.files@.contains(
                #[trigger] self.owners@[i],
            ) by {
                if self.owners@[i] == file {
                    assert(self.files@[mid_files.len() as int] == file);
                } else {
                    let j = choose|j: int| 0 <= j < mid_files.len() && mid_files[j] == self.owners@[i];
                    assert(self.files@[j] == self.owners@[i]);
                }
            }
            assert(self.files@.no_duplicates()) by {
                assert forall|a: int, b: int| 0 <= a < b < self.files@.len() implies self.files@[a]
                    != self.files@[b] by {
                    if b == mid_files.len() {
                        assert(mid_files[a] != file);
                    }
                }
            }
            assert(Seq::new(symbols@.len(), |i: int| (file, symbols@[i]@)) =~= tagged(file, symbol_views(symbols@)));
            assert(self@ == added(old(self)@, file, symbol_views(symbols@)));
        }
    }

    /// Removes the symbols of `file`. Where the file was indexed, the
    /// visibility maps become stale.
    pub fn remove_file(&mut self, file: FileId)
        requires
            old(self).wf(),
        ensures
            final(self).wf(),
            final(self)@.entries == keep_others(old(self)@.entries, file),
            final(self)@.files == keep_other_files(old(self)@.files, file),
            !final(self)@.files.contains(file),
            final(self)@.scopes == old(self)@.scopes,
            final(self)@.dirty == (old(self)@.dirty || old(self)@.files.contains(file)),
    {
        let ghost old_entries = self@.entries;
        if !self.has_file(file) {
            proof {
                self.lemma_keep_others_absent(file);
                lemma_keep_other_files_absent(self.files@, file);
            }
            return;
        }
        self.visibility_dirty = true;
        let ghost old_files = self.files@;
        let mut files: Vec<FileId> = Vec::new();
        let mut i: usize = 0;
        while i < self.files.len()
            invariant
                self.files@ == old_files,
                i <= old_files.len(),
                files@ == keep_other_files(old_files.subrange(0, i as int), file),
            decreases old_files.len() - i,
        {
            if self.files[i] != file {
                files.push(self.files[i]);
            }
            proof {
                assert(old_files.subrange(0, i + 1).drop_last() =~= old_files.subrange(0, i as int));
            }
            i = i + 1;
        }
        proof {
            assert(old_files.subrange(0, old_files.len() as int) =~= old_files);
        }
        let ghost old_syms = self.symbols@;
        let ghost old_owners = self.owners@;
        let mut symbols: Vec<HirSymbol> = Vec::new();
        let mut owners: Vec<FileId> = Vec::new();
        let mut i: usize = 0;
        while i < self.symbols.len()
            invariant
                self.symbols@ == old_syms,
                self.owners@ == old_owners,
                old_syms.len() == old_owners.len(),
                old_entries.len() == old_syms.len(),
                forall|j: int| 0 <= j < old_entries.len() ==> old_entries[j] == (old_owners[j], old_syms[j]@),
                i <= old_syms.len(),
                symbols@.len() == owners@.len(),
                Seq::new(symbols@.len(), |j: int| (owners@[j], symbols@[j]@)) == keep_others(
                    old_entries.subrange(0, i as int),
                    file,
                ),
            decreases old_syms.len() - i,
        {
            let ghost prev = Seq::new(symbols@.len(), |j: int| (owners@[j], symbols@[j]@));
            if self.owners[i] != file {
                symbols.push(self.symbols[i].duplicate());
                owners.push(self.owners[i]);
                proof {
                    assert(Seq::new(symbols@.len(), |j: int| (owners@[j], symbols@[j]@)) =~= prev.push(
                        old_entries[i as int],
                    ));
                }
            }
            proof {
                assert(old_entries.subrange(0, i + 1).drop_last() =~= old_entries.subrange(0, i as int));
            }
            i = i + 1;
        }
        proof {
            assert(old_entries.subrange(0, old_entries.len() as int) =~= old_entries);
            lemma_keep_other_files_props(old_files, file);
            lemma_keep_others_props(old_entries, file);
        }
        self.symbols = symbols;
        self.owners = owners;
        self.files = files;
        proof {
            assert(self@.entries =~= keep_others(old_entries, file));
            assert forall|j: int| 0 <= j < self.owners@.len() implies self.files@.contains(
                #[trigger] self.owners@[j],
            ) by {
                assert(self@.entries[j].0 == self.owners@[j]);
                assert(keep_others(old_entries, file)[j] == self@.entries[j]);
                let k = choose|k: int| 0 <= k < old_entries.len() && old_entries[k] == keep_others(old_entries, file)[j];
                assert(old_owners[k] == self.owners@[j]);
                assert(old_files.contains(old_owners[k]));
                assert(self.owners@[j] != file);
            }
        }
    }

    /// Whether `file` is indexed.
    fn has_file(&self, file: FileId) -> (r: bool)
        ensures
            r == self.files@.contains(file),
    {
        let mut i: usize = 0;
        while i < self.files.len()
            invariant
                i <= self.files@.len(),
                forall|j: int| 0 <= j < i ==> self.files@[j] != file,
            decreases self.files@.len() - i,
        {
            if self.files[i] == file {
                return true;
            }
            i = i + 1;
        }
        false
    }

    proof fn lemma_keep_others_absent(&self, file: FileId)
        requires
            self.wf(),
            !self.files@.contains(file),
        ensures
            keep_others(self@.entries, file) == self@.entries,
    {
        let e = self@.entries;
        assert forall|i: int| 0 <= i < e.len() implies e[i].0 != file by {
            assert(self.files@.contains(self.owners@[i]));
        }
        lemma_keep_others_none(e, file);
    }

    /// Looks up a symbol by qualified name.
    pub fn lookup_qualified(&self, name: &str) -> (r: Option<&HirSymbol>)
        requires
            self.wf(),
        ensures
            opt_symbol(r) == qualified_lookup(self@, name@),
    {
        let ghost e = self@.entries;
        let ghost p = Query::Qualified(name@);
        let mut n: usize = self.symbols.len();
        while n > 0
            invariant
                n <= self.symbols@.len(),
                self.symbols@.len() == self.owners@.len(),
                e == self@.entries,
                p == Query::Qualified(name@),
                last_below(e, p, e.len() as int) == last_below(e, p, n as int),
            decreases n,
        {
            proof {
                self.lemma_entry(n - 1);
            }
            if same_text(self.symbols[n - 1].qualified_name.as_str(), name) {
                return Some(&self.symbols[n - 1]);
            }
            n = n - 1;
        }
        None
    }

    /// Looks up a symbol by qualified name, for changing it in place.
    pub fn lookup_qualified_mut(&mut self, name: &str) -> (r: Option<&mut HirSymbol>)
        requires
            old(self).wf(),
        ensures
            match r {
                Some(s) => qualified_lookup(old(self)@, name@) == Some(s@),
                None => qualified_lookup(old(self)@, name@) is None && *final(self) == *old(self),
            },
    {
        let ghost e = self@.entries;
        let ghost p = Query::Qualified(name@);
        let mut n: usize = self.symbols.len();
        while n > 0
            invariant
                n <= self.symbols@.len(),
                self.symbols@.len() == self.owners@.len(),
                e == self@.entries,
                *self == *old(self),
                p == Query::Qualified(name@),
                last_below(e, p, e.len() as int) == last_below(e, p, n as int),
            decreases n,
        {
            proof {
                self.lemma_entry(n - 1);
            }
            if same_text(self.symbols[n - 1].qualified_name.as_str(), name) {
                return Some(&mut self.symbols[n - 1]);
            }
            n = n - 1;
        }
        None
    }

    /// The symbols of the entries that a listing selects, in order.
    fn collect_where(&self, listing: Listing, key: &str, file: FileId) -> (r: Vec<&HirSymbol>)
        requires
            self.wf(),
        ensures
            symbols_view(r@) == collect(self@.entries, listing_query(listing, key@, file), self@.entries.len() as int),
    {
        let ghost e = self@.entries;
        let ghost p = listing_query(listing, key@, file);
        let mut r: Vec<&HirSymbol> = Vec::new();
        let mut i: usize = 0;
        while i < self.symbols.len()
            invariant
                self.wf(),
                i <= self.symbols@.len(),
                self.symbols@.len() == self.owners@.len(),
                e == self@.entries,
                p == listing_query(listing, key@, file),
                symbols_view(r@) == collect(e, p, i as int),
            decreases self.symbols@.len() - i,
        {
            proof {
                self.lemma_entry(i as int);
            }
            let keep = match listing {
                Listing::Simple => same_text(self.symbols[i].name.as_str(), key),
                Listing::File => self.owners[i] == file,
                Listing::Latest => self.latest_at(i, false),
                Listing::LatestDefinition => self.latest_at(i, true),
            };
            assert(keep == selects(e, p, i as int));
            if keep {
                let ghost before = r@;
                r.push(&self.symbols[i]);
                assert(symbols_view(r@) =~= symbols_view(before).push(e[i as int].1));
            }
            i = i + 1;
        }
        r
    }

    /// Whether the entry at `i` is the one its qualified name stands for
    /// (among definitions only, where `defs_only`).
    fn latest_at(&self, i: usize, defs_only: bool) -> (r: bool)
        requires
            self.wf(),
            i < self@.entries.len(),
        ensures
            defs_only ==> r == is_latest_definition(self@.entries, i as int),
            !defs_only ==> r == is_latest(self@.entries, i as int),
    {
        let ghost e = self@.entries;
        proof {
            self.lemma_entry(i as int);
        }
        if defs_only && !self.symbols[i].kind.is_definition() {
            return false;
        }
        let len = self.symbols.len();
        assert(i < len);
        let mut j: usize = i + 1;
        while j < self.symbols.len()
            invariant
                i < j <= self.symbols@.len(),
                self.wf(),
                self.symbols@.len() == self.owners@.len(),
                e == self@.entries,
                defs_only ==> is_definition_kind(e[i as int].1.kind),
                forall|k: int|
                    i < k < j ==> !(e[k].1.qualified_name == e[i as int].1.qualified_name && (
                    !defs_only || is_definition_kind(e[k].1.kind))),
            decreases self.symbols@.len() - j,
        {
            proof {
                self.lemma_entry(j as int);
            }
            if same_text(
                self.symbols[j].qualified_name.as_str(),
                self.symbols[i].qualified_name.as_str(),
            ) && (!defs_only || self.symbols[j].kind.is_definition()) {
                return false;
            }
            j = j + 1;
        }
        true
    }

    /// All symbols with a simple name, in the order added.
    pub fn lookup_simple(&self, name: &str) -> (r: Vec<&HirSymbol>)
        requires
            self.wf(),
        ensures
            symbols_view(r@) == simple_lookup(self@, name@),
    {
        self.collect_where(Listing::Simple, name, FileId(0))
    }

    /// Looks up a definition-kind symbol by qualified name.
    pub fn lookup_definition(&self, name: &str) -> (r: Option<&HirSymbol>)
        requires
            self.wf(),
        ensures
            opt_symbol(r) == definition_lookup(self@, name@),
    {
        let ghost e = self@.entries;
        let ghost p = Query::Definition(name@);
        let mut n: usize = self.symbols.len();
        while n > 0
            invariant
                n <= self.symbols@.len(),
                self.symbols@.len() == self.owners@.len(),
                e == self@.entries,
                p == Query::Definition(name@),
                last_below(e, p, e.len() as int) == last_below(e, p, n as int),
            decreases n,
        {
            proof {
                self.lemma_entry(n - 1);
            }
            if same_text(self.symbols[n - 1].qualified_name.as_str(), name)
                && self.symbols[n - 1].kind.is_definition() {
                return Some(&self.symbols[n - 1]);
            }
            n = n - 1;
        }
        None
    }

    /// All symbols added under `file`, in order.
    pub fn symbols_in_file(&self, file: FileId) -> (r: Vec<&HirSymbol>)
        requires
            self.wf(),
        ensures
            symbols_view(r@) == file_symbols(self@, file),
    {
        self.collect_where(Listing::File, "", file)
    }

    /// One definition per qualified name, in the order added.
    pub fn all_definitions(&self) -> (r: Vec<&HirSymbol>)
        requires
            self.wf(),
        ensures
            symbols_view(r@) == distinct_definitions(self@),
    {
        self.collect_where(Listing::LatestDefinition, "", FileId(0))
    }

    /// One symbol per qualified name, in the order added.
    pub fn all_symbols(&self) -> (r: Vec<&HirSymbol>)
        requires
            self.wf(),
        ensures
            symbols_view(r@) == distinct_symbols(self@),
    {
        self.collect_where(Listing::Latest, "", FileId(0))
    }

    /// The number of distinct qualified names.
    pub fn len(&self) -> (r: usize)
        requires
            self.wf(),
        ensures
            r == distinct_symbols(self@).len(),
    {
        self.all_symbols().len()
    }

    /// Whether the index holds no symbol.
    pub fn is_empty(&self) -> (r: bool)
        requires
            self.wf(),
        ensures
            r == (self@.entries.len() == 0),
    {
        self.symbols.len() == 0
    }

    /// The number of files indexed.
    pub fn file_count(&self) -> (r: usize)
        requires
            self.wf(),
        ensures
            r == self@.files.len(),
    {
        self.files.len()
    }

    /// Whether the visibility maps are stale.
    pub fn is_dirty(&self) -> (r: bool)
        ensures
            r == self@.dirty,
    {
        self.visibility_dirty
    }

    /// The visibility map of `scope`, as last built.
    pub fn visibility_for_scope(&self, scope: &str) -> (r: Option<&ScopeVisibility>)
        requires
            self.wf(),
        ensures
            match r {
                Some(v) => self@.scopes.contains_key(scope@) && self@.scopes[scope@] == v@ && v.wf(),
                None => !self@.scopes.contains_key(scope@),
            },
    {
        proof {
            lemma_scope_map(self.visibility_map@);
        }
        let mut i: usize = 0;
        while i < self.visibility_map.len()
            invariant
                self.wf(),
                i <= self.visibility_map@.len(),
                forall|j: int| 0 <= j < i ==> self.visibility_map@[j]@.scope != scope@,
            decreases self.visibility_map@.len() - i,
        {
            if same_text(self.visibility_map[i].scope(), scope) {
                proof {
                    lemma_scope_map(self.visibility_map@);
                }
                return Some(&self.visibility_map[i]);
            }
            i = i + 1;
        }
        proof {
            lemma_scope_map(self.visibility_map@);
        }
        None
    }
}

/// The position that a lookup finds is one it selects.
pub proof fn lemma_last_below(e: Seq<Entry>, q: Query, n: int)
    ensures
        last_below(e, q, n) matches Some(i) ==> 0 <= i < n && selects(e, q, i),
        last_below(e, q, n) is None ==> forall|i: int| 0 <= i < n ==> !selects(e, q, i),
    decreases n,
{
    if n > 0 {
        lemma_last_below(e, q, n - 1);
    }
}

/// A symbol found by qualified name has that name and is an entry.
pub proof fn lemma_qualified_lookup(v: IndexView, q: Seq<char>)
    ensures
        qualified_lookup(v, q) matches Some(s) ==> s.qualified_name == q && exists|i: int|
            0 <= i < v.entries.len() && v.entries[i].1 == s,
{
    lemma_last_below(v.entries, Query::Qualified(q), v.entries.len() as int);
}

impl Default for SymbolIndex {
    fn default() -> (r: SymbolIndex)
        ensures
            r.wf(),
            r@.entries.len() == 0,
            r@.files.len() == 0,
            !r@.dirty,
    {
        SymbolIndex::new()
    }
}

proof fn lemma_keep_others_none(e: Seq<Entry>, f: FileId)
    requires
        forall|i: int| 0 <= i < e.len() ==> e[i].0 != f,
    ensures
        keep_others(e, f) == e,
    decreases e.len(),
{
    if e.len() > 0 {
        lemma_keep_others_none(e.drop_last(), f);
        assert(e.drop_last().push(e.last()) =~= e);
    }
}

proof fn lemma_keep_other_files_absent(s: Seq<FileId>, f: FileId)
    requires
        !s.contains(f),
    ensures
        keep_other_files(s, f) == s,
    decreases s.len(),
{
    if s.len() > 0 {
        assert(!s.drop_last().contains(f)) by {
            if s.drop_last().contains(f) {
                let i = choose|i: int| 0 <= i < s.drop_last().len() && s.drop_last()[i] == f;
                assert(s[i] == f);
            }
        }
        lemma_keep_other_files_absent(s.drop_last(), f);
        assert(s.drop_last().push(s.last()) =~= s);
    }
}

/// The entries kept are entries of `e`, and none is under `f`.
proof fn lemma_keep_others_props(e: Seq<Entry>, f: FileId)
    ensures
        forall|j: int|
            0 <= j < keep_others(e, f).len() ==> (#[trigger] keep_others(e, f)[j]).0 != f
                && exists|i: int| 0 <= i < e.len() && e[i] == keep_others(e, f)[j],
    decreases e.len(),
{
    if e.len() > 0 {
        let t = keep_others(e.drop_last(), f);
        lemma_keep_others_props(e.drop_last(), f);
        assert forall|j: int| 0 <= j < keep_others(e, f).len() implies (#[trigger] keep_others(
            e,
            f,
        )[j]).0 != f && exists|i: int| 0 <= i < e.len() && e[i] == keep_others(e, f)[j] by {
            if j < t.len() {
                assert(keep_others(e, f)[j] == t[j]);
                let i = choose|i: int| 0 <= i < e.drop_last().len() && e.drop_last()[i] == t[j];
                assert(e[i] == t[j]);
            } else {
                assert(e[e.len() - 1] == keep_others(e, f)[j]);
            }
        }
    }
}

/// The files kept are distinct where those of `s` were, and `f` is gone.
proof fn lemma_keep_other_files_props(s: Seq<FileId>, f: FileId)
    requires
        s.no_duplicates(),
    ensures
        keep_other_files(s, f).no_duplicates(),
        !keep_other_files(s, f).contains(f),
        forall|x: FileId| s.contains(x) && x != f ==> keep_other_files(s, f).contains(x),
        forall|x: FileId| keep_other_files(s, f).contains(x) ==> s.contains(x),
    decreases s.len(),
{
    if s.len() > 0 {
        let t = s.drop_last();
        assert(t.no_duplicates());
        lemma_keep_other_files_props(t, f);
        let k = keep_other_files(t, f);
        assert forall|x: FileId| s.contains(x) && x != f implies keep_other_files(s, f).contains(x) by {
            let i = choose|i: int| 0 <= i < s.len() && s[i] == x;
            if i < s.len() - 1 {
                assert(t[i] == x);
                assert(t.contains(x));
                assert(k.contains(x));
                let j = choose|j: int| 0 <= j < k.len() && k[j] == x;
                assert(keep_other_files(s, f)[j] == x);
            } else {
                assert(keep_other_files(s, f)[k.len() as int] == x);
            }
        }
        assert forall|x: FileId| keep_other_files(s, f).contains(x) implies s.contains(x) by {
            let j = choose|j: int| 0 <= j < keep_other_files(s, f).len() && keep_other_files(s, f)[j] == x;
            if j < k.len() {
                assert(k[j] == x);
                assert(k.contains(x));
                assert(t.contains(x));
                let i = choose|i: int| 0 <= i < t.len() && t[i] == x;
                assert(s[i] == x);
            } else {
                assert(s[s.len() - 1] == x);
            }
        }
        if s.last() != f {
            assert(!k.contains(s.last())) by {
                if k.contains(s.last()) {
                    assert(t.contains(s.last()));
                    let i = choose|i: int| 0 <= i < t.len() && t[i] == s.last();
                    assert(s[i] == s[s.len() - 1]);
                }
            }
        }
    }
}

} // verus!

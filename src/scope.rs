//! A lexical scope: symbols keyed by simple name, with a parent scope for
//! nested lookups.
use vstd::prelude::*;

use std::sync::Arc;

use crate::index::{opt_symbol, symbols_view};
use crate::names::{is_qualified, is_qualified_exec, same_text, split_first, first_occurrence, sep};
use crate::symbols::{HirSymbol, SymbolView};

verus! {

/// A scope of symbols with an optional parent scope.
#[derive(Clone, Debug)]
pub struct Scope {
    symbols: Vec<HirSymbol>,
    parent: Option<Arc<Scope>>,
    prefix: String,
}

/// The first symbol of `s` with simple name `n`.
pub open spec fn first_named(s: Seq<SymbolView>, n: Seq<char>) -> Option<SymbolView>
    decreases s.len(),
{
    if s.len() == 0 {
        None
    } else if s[0].name == n {
        Some(s[0])
    } else {
        first_named(s.drop_first(), n)
    }
}

/// All symbols of `s` with simple name `n`, in order.
pub open spec fn all_named(s: Seq<SymbolView>, n: Seq<char>) -> Seq<SymbolView>
    decreases s.len(),
{
    if s.len() == 0 {
        s
    } else if s.last().name == n {
        all_named(s.drop_last(), n).push(s.last())
    } else {
        all_named(s.drop_last(), n)
    }
}

/// The first symbol of `s` with qualified name `q`.
pub open spec fn first_qualified(s: Seq<SymbolView>, q: Seq<char>) -> Option<SymbolView>
    decreases s.len(),
{
    if s.len() == 0 {
        None
    } else if s[0].qualified_name == q {
        Some(s[0])
    } else {
        first_qualified(s.drop_first(), q)
    }
}

impl Scope {
    /// The symbols declared in this scope, in the order added.
    pub closed spec fn own(&self) -> Seq<SymbolView> {
        symbols_view_owned(self.symbols@)
    }

    /// The parent scope.
    pub closed spec fn parent_scope(&self) -> Option<Scope> {
        match self.parent {
            Some(p) => Some(*p),
            None => None,
        }
    }

    /// The qualified-name prefix of this scope.
    pub closed spec fn prefix_view(&self) -> Seq<char> {
        self.prefix@
    }

    /// `name` looked up here and then in the parent scopes: the first symbol
    /// added under that name in the nearest scope that has one.
    pub open spec fn lookup_spec(self, name: Seq<char>) -> Option<SymbolView>
        decreases self,
    {
        match first_named(self.own(), name) {
            Some(s) => Some(s),
            None => match self.parent_scope() {
                Some(p) => if height_below(p, self) { p.lookup_spec(name) } else { None },
                None => None,
            },
        }
    }

    /// Every symbol named `name`, here first and then in the parent scopes.
    pub open spec fn lookup_all_spec(self, name: Seq<char>) -> Seq<SymbolView>
        decreases self,
    {
        all_named(self.own(), name) + match self.parent_scope() {
            Some(p) => if height_below(p, self) { p.lookup_all_spec(name) } else { Seq::empty() },
            None => Seq::empty(),
        }
    }

    /// The symbol with qualified name `q`, here first and then in the parents.
    pub open spec fn qualified_spec(self, q: Seq<char>) -> Option<SymbolView>
        decreases self,
    {
        match first_qualified(self.own(), q) {
            Some(s) => Some(s),
            None => match self.parent_scope() {
                Some(p) => if height_below(p, self) { p.qualified_spec(q) } else { None },
                None => None,
            },
        }
    }

    /// An empty root scope.
    pub fn new() -> (r: Scope)
        ensures
            r.own().len() == 0,
            r.parent_scope() is None,
            r.prefix_view() == Seq::<char>::empty(),
    {
        Scope { symbols: Vec::new(), parent: None, prefix: String::new() }
    }

    /// An empty scope under `parent`, with qualified-name prefix `prefix`.
    pub fn child(parent: Arc<Scope>, prefix: &str) -> (r: Scope)
        ensures
            r.own().len() == 0,
            r.parent_scope() == Some(*parent),
            r.prefix_view() == prefix@,
    {
        Scope { symbols: Vec::new(), parent: Some(parent), prefix: prefix.to_owned() }
    }

    /// Adds a symbol to this scope.
    pub fn add(&mut self, symbol: HirSymbol)
        ensures
            final(self).own() == old(self).own().push(symbol@),
            final(self).parent_scope() == old(self).parent_scope(),
            final(self).prefix_view() == old(self).prefix_view(),
    {
        let ghost before = self.symbols@;
        self.symbols.push(symbol);
        assert(symbols_view_owned(self.symbols@) =~= symbols_view_owned(before).push(symbol@));
    }

    /// The first symbol named `name` here, else in the parent scopes.
    pub fn lookup(&self, name: &str) -> (r: Option<&HirSymbol>)
        ensures
            opt_symbol(r) == self.lookup_spec(name@),
        decreases *self,
    {
        assert(self.own().subrange(0, self.own().len() as int) =~= self.own());
        let mut i: usize = 0;
        while i < self.symbols.len()
            invariant
                i <= self.symbols@.len(),
                first_named(self.own(), name@) == first_named(self.own().subrange(i as int, self.own().len() as int), name@),
            decreases self.symbols@.len() - i,
        {
            let ghost rest = self.own().subrange(i as int, self.own().len() as int);
            if same_text(self.symbols[i].name.as_str(), name) {
                return Some(&self.symbols[i]);
            }
            assert(rest.drop_first() =~= self.own().subrange(i + 1, self.own().len() as int));
            i = i + 1;
        }
        match &self.parent {
            Some(p) => {
                proof {
                    lemma_parent_height(*self);
                }
                p.lookup(name)
            },
            None => None,
        }
    }

    /// Every symbol named `name`, here first and then in the parent scopes.
    pub fn lookup_all(&self, name: &str) -> (r: Vec<&HirSymbol>)
        ensures
            symbols_view(r@) == self.lookup_all_spec(name@),
        decreases *self,
    {
        let mut results: Vec<&HirSymbol> = Vec::new();
        let mut i: usize = 0;
        while i < self.symbols.len()
            invariant
                i <= self.symbols@.len(),
                symbols_view(results@) == all_named(self.own().subrange(0, i as int), name@),
            decreases self.symbols@.len() - i,
        {
            let ghost prefix_seen = self.own().subrange(0, i as int);
            let ghost before = results@;
            if same_text(self.symbols[i].name.as_str(), name) {
                results.push(&self.symbols[i]);
                assert(symbols_view(results@) =~= symbols_view(before).push(self.symbols@[i as int]@));
            }
            proof {
                assert(self.own().subrange(0, i + 1).drop_last() =~= prefix_seen);
            }
            i = i + 1;
        }
        proof {
            assert(self.own().subrange(0, self.own().len() as int) =~= self.own());
        }
        match &self.parent {
            Some(p) => {
                proof {
                    lemma_parent_height(*self);
                }
                let more = p.lookup_all(name);
                let ghost before = results@;
                let mut k: usize = 0;
                while k < more.len()
                    invariant
                        k <= more@.len(),
                        symbols_view(results@) == symbols_view(before) + symbols_view(more@.subrange(0, k as int)),
                    decreases more@.len() - k,
                {
                    let ghost prev = results@;
                    results.push(more[k]);
                    assert(symbols_view(results@) =~= symbols_view(prev).push(more@[k as int]@));
                    assert(symbols_view(more@.subrange(0, k + 1)) =~= symbols_view(more@.subrange(0, k as int)).push(more@[k as int]@));
                    assert(symbols_view(results@) =~= symbols_view(before) + symbols_view(more@.subrange(0, k + 1)));
                    k = k + 1;
                }
                assert(more@.subrange(0, more@.len() as int) =~= more@);
                results
            },
            None => {
                assert(symbols_view(results@) =~= all_named(self.own(), name@) + Seq::<SymbolView>::empty());
                results
            },
        }
    }

    /// Looks up a qualified name like `Package::Part::attr`: a simple name as
    /// [`Scope::lookup`]; a path whose first segment is visible, by its exact
    /// qualified name here or in the parent scopes.
    pub fn lookup_qualified(&self, path: &str) -> (r: Option<&HirSymbol>)
        ensures
            opt_symbol(r) == if !is_qualified(path@) {
                self.lookup_spec(path@)
            } else {
                match first_occurrence(path@, sep()) {
                    Some(i) => if self.lookup_spec(path@.subrange(0, i)) is Some {
                        self.qualified_spec(path@)
                    } else {
                        None
                    },
                    None => None,
                }
            },
    {
        if !is_qualified_exec(path) {
            return self.lookup(path);
        }
        match split_first(path) {
            Some((head, _rest)) => {
                if self.lookup(head.as_str()).is_some() {
                    self.find_by_qualified_name(path)
                } else {
                    None
                }
            },
            None => None,
        }
    }

    /// The symbol with qualified name `qualified`, here first and then in
    /// the parent scopes.
    fn find_by_qualified_name(&self, qualified: &str) -> (r: Option<&HirSymbol>)
        ensures
            opt_symbol(r) == self.qualified_spec(qualified@),
        decreases *self,
    {
        assert(self.own().subrange(0, self.own().len() as int) =~= self.own());
        let mut i: usize = 0;
        while i < self.symbols.len()
            invariant
                i <= self.symbols@.len(),
                first_qualified(self.own(), qualified@) == first_qualified(self.own().subrange(i as int, self.own().len() as int), qualified@),
            decreases self.symbols@.len() - i,
        {
            let ghost rest = self.own().subrange(i as int, self.own().len() as int);
            if same_text(self.symbols[i].qualified_name.as_str(), qualified) {
                return Some(&self.symbols[i]);
            }
            assert(rest.drop_first() =~= self.own().subrange(i + 1, self.own().len() as int));
            i = i + 1;
        }
        match &self.parent {
            Some(p) => {
                proof {
                    lemma_parent_height(*self);
                }
                p.find_by_qualified_name(qualified)
            },
            None => None,
        }
    }

    /// The qualified-name prefix of this scope.
    pub fn prefix(&self) -> (r: &str)
        ensures
            r@ == self.prefix_view(),
    {
        self.prefix.as_str()
    }

    /// The symbols of this scope (not of its parents), in the order added.
    pub fn symbols(&self) -> (r: Vec<&HirSymbol>)
        ensures
            symbols_view(r@) == self.own(),
    {
        let mut r: Vec<&HirSymbol> = Vec::new();
        let mut i: usize = 0;
        while i < self.symbols.len()
            invariant
                i <= self.symbols@.len(),
                symbols_view(r@) == self.own().subrange(0, i as int),
            decreases self.symbols@.len() - i,
        {
            let ghost prev = r@;
            r.push(&self.symbols[i]);
            assert(self.own()[i as int] == self.symbols@[i as int]@);
            assert(symbols_view(r@) =~= symbols_view(prev).push(self.symbols@[i as int]@));
            assert(symbols_view(r@) =~= self.own().subrange(0, i + 1));
            i = i + 1;
        }
        assert(self.own().subrange(0, self.own().len() as int) =~= self.own());
        r
    }

    /// The number of symbols of this scope.
    pub fn len(&self) -> (r: usize)
        ensures
            r == self.own().len(),
    {
        self.symbols.len()
    }

    /// Whether this scope has no symbol.
    pub fn is_empty(&self) -> (r: bool)
        ensures
            r == (self.own().len() == 0),
    {
        self.symbols.len() == 0
    }
}

impl Default for Scope {
    fn default() -> (r: Scope)
        ensures
            r.own().len() == 0,
            r.parent_scope() is None,
            r.prefix_view() == Seq::<char>::empty(),
    {
        Scope::new()
    }
}

/// The views of owned symbols.
pub open spec fn symbols_view_owned(v: Seq<HirSymbol>) -> Seq<SymbolView> {
    v.map_values(|s: HirSymbol| s@)
}

/// Whether `p` lies strictly below `s` (is a part of it).
pub closed spec fn height_below(p: Scope, s: Scope) -> bool {
    decreases_to!(s => p)
}

/// A scope's parent lies below it.
proof fn lemma_parent_height(s: Scope)
    ensures
        s.parent_scope() matches Some(p) ==> height_below(p, s),
{
    match s.parent {
        Some(a) => {
            assert(decreases_to!(s => s.parent));
            assert(decreases_to!(s.parent => a));
        },
        None => {},
    }
}

} // verus!

//! The query-time resolver: a name, simple or qualified, looked up from a
//! scope through the visibility maps.
use vstd::prelude::*;

use crate::index::{IndexView, SymbolIndex, lemma_qualified_lookup, opt_symbol, qualified_lookup};
use crate::names::{
    first_occurrence, is_qualified, is_qualified_exec, join, join_names, lemma_outer_shorter,
    lemma_split_shorter, outer_of, outer_scope, sep, split_first,
};
use crate::symbols::{HirSymbol, SymbolKind, SymbolView, is_definition_kind};
use crate::visibility::VisibilityView;

verus! {

/// The symbol that a visibility map gives `name`: its direct entry if that
/// leads to a symbol of the index, else its imported entry if that does.
pub open spec fn via_map(v: IndexView, vis: VisibilityView, name: Seq<char>) -> Option<SymbolView> {
    if vis.direct.contains_key(name) && qualified_lookup(v, vis.direct[name]) is Some {
        qualified_lookup(v, vis.direct[name])
    } else if vis.imports.contains_key(name) && qualified_lookup(v, vis.imports[name]) is Some {
        qualified_lookup(v, vis.imports[name])
    } else {
        None
    }
}

/// The symbol that the map of `scope` gives `name`.
pub open spec fn in_scope(v: IndexView, scope: Seq<char>, name: Seq<char>) -> Option<SymbolView> {
    if v.scopes.contains_key(scope) {
        via_map(v, v.scopes[scope], name)
    } else {
        None
    }
}

/// `name` looked up in `scope` and then in each enclosing scope out to the
/// root; the first map that gives it wins.
pub open spec fn walk_outward(v: IndexView, scope: Seq<char>, name: Seq<char>) -> Option<SymbolView>
    decreases scope.len(),
{
    match in_scope(v, scope, name) {
        Some(s) => Some(s),
        None => if scope.len() == 0 {
            None
        } else if outer_of(scope).len() < scope.len() {
            walk_outward(v, outer_of(scope), name)
        } else {
            None
        },
    }
}

/// The scope that members of `f` are looked up in: an alias's target, else
/// its own qualified name.
pub open spec fn member_scope(f: SymbolView) -> Seq<char> {
    if f.kind == SymbolKind::Alias && f.supertypes.len() > 0 {
        f.supertypes[0]
    } else {
        f.qualified_name
    }
}

/// What `name` resolves to from `scope`.
///
/// A simple name is walked outward from `scope` (direct entries before
/// imported ones at each level), and else taken as a root-level qualified
/// name. A qualified name is an exact qualified name if there is one; else
/// its head is resolved, and the tail is resolved within the scope the head
/// leads to (an alias followed once).
pub open spec fn resolve_spec(v: IndexView, scope: Seq<char>, name: Seq<char>) -> Option<SymbolView>
    decreases name.len(),
{
    if is_qualified(name) {
        if qualified_lookup(v, name) is Some {
            qualified_lookup(v, name)
        } else {
            match first_occurrence(name, sep()) {
                Some(i) => if 0 <= i && i + 2 <= name.len() {
                    let head = name.subrange(0, i);
                    let rest = name.subrange(i + 2, name.len() as int);
                    match resolve_spec(v, scope, head) {
                        Some(f) => {
                            let target = member_scope(f);
                            if is_qualified(rest) {
                                resolve_spec(v, target, rest)
                            } else {
                                match in_scope(v, target, rest) {
                                    Some(s) => Some(s),
                                    None => qualified_lookup(v, join(target, rest)),
                                }
                            }
                        },
                        None => None,
                    }
                } else {
                    None
                },
                None => None,
            }
        }
    } else {
        match walk_outward(v, scope, name) {
            Some(s) => Some(s),
            None => qualified_lookup(v, name),
        }
    }
}

/// What `name` resolves to as a type: only a definition counts.
pub open spec fn resolve_type_spec(v: IndexView, scope: Seq<char>, name: Seq<char>) -> Option<SymbolView> {
    match resolve_spec(v, scope, name) {
        Some(s) => if is_definition_kind(s.kind) {
            Some(s)
        } else {
            None
        },
        None => None,
    }
}

/// The outcome of a resolution: one symbol, several candidates, or nothing.
#[derive(Clone, Debug)]
pub enum ResolveResult {
    Found(HirSymbol),
    Ambiguous(Vec<HirSymbol>),
    NotFound,
}

/// The symbol of a resolution outcome, where there is exactly one.
pub open spec fn found_view(r: ResolveResult) -> Option<SymbolView> {
    match r {
        ResolveResult::Found(s) => Some(s@),
        _ => None,
    }
}

impl ResolveResult {
    /// The symbol, where resolution found exactly one.
    pub fn symbol(&self) -> (r: Option<&HirSymbol>)
        ensures
            opt_symbol(r) == found_view(*self),
    {
        match self {
            ResolveResult::Found(s) => Some(s),
            _ => None,
        }
    }

    /// Whether resolution found exactly one symbol.
    pub fn is_found(&self) -> (r: bool)
        ensures
            r == (*self is Found),
    {
        match self {
            ResolveResult::Found(_) => true,
            _ => false,
        }
    }

    /// Whether resolution found several candidates.
    pub fn is_ambiguous(&self) -> (r: bool)
        ensures
            r == (*self is Ambiguous),
    {
        match self {
            ResolveResult::Ambiguous(_) => true,
            _ => false,
        }
    }
}

/// The symbol that the map of `scope` gives `name`.
pub(crate) fn lookup_in_scope<'a>(index: &'a SymbolIndex, scope: &str, name: &str) -> (r: Option<&'a HirSymbol>)
    requires
        index.wf(),
    ensures
        opt_symbol(r) == in_scope(index@, scope@, name@),
{
    match index.visibility_for_scope(scope) {
        Some(vis) => {
            match vis.lookup_direct(name) {
                Some(q) => match index.lookup_qualified(q.as_str()) {
                    Some(sym) => {
                        return Some(sym);
                    },
                    None => {},
                },
                None => {},
            }
            match vis.lookup_import(name) {
                Some(q) => index.lookup_qualified(q.as_str()),
                None => None,
            }
        },
        None => None,
    }
}

/// `name` looked up from `scope` outward to the root.
fn walk_outward_exec<'a>(index: &'a SymbolIndex, scope: &str, name: &str) -> (r: Option<&'a HirSymbol>)
    requires
        index.wf(),
    ensures
        opt_symbol(r) == walk_outward(index@, scope@, name@),
{
    let mut current = scope.to_owned();
    loop
        invariant
            index.wf(),
            walk_outward(index@, scope@, name@) == walk_outward(index@, current@, name@),
        decreases current@.len(),
    {
        match lookup_in_scope(index, current.as_str(), name) {
            Some(sym) => {
                return Some(sym);
            },
            None => {},
        }
        if current.unicode_len() == 0 {
            return None;
        }
        proof {
            lemma_outer_shorter(current@);
        }
        current = outer_scope(current.as_str());
    }
}

/// What `name` resolves to from `scope` (see [`resolve_spec`]).
pub(crate) fn resolve_name<'a>(index: &'a SymbolIndex, scope: &str, name: &str) -> (r: Option<&'a HirSymbol>)
    requires
        index.wf(),
    ensures
        opt_symbol(r) == resolve_spec(index@, scope@, name@),
    decreases name@.len(),
{
    if is_qualified_exec(name) {
        match index.lookup_qualified(name) {
            Some(sym) => {
                return Some(sym);
            },
            None => {},
        }
        proof {
            lemma_split_shorter(name@);
        }
        let (head, rest) = match split_first(name) {
            Some(ht) => ht,
            None => {
                return None;
            },
        };
        match resolve_name(index, scope, head.as_str()) {
            Some(first) => {
                let target = if first.kind == SymbolKind::Alias && first.supertypes.len() > 0 {
                    &first.supertypes[0]
                } else {
                    &first.qualified_name
                };
                if is_qualified_exec(rest.as_str()) {
                    return resolve_name(index, target.as_str(), rest.as_str());
                }
                match lookup_in_scope(index, target.as_str(), rest.as_str()) {
                    Some(sym) => Some(sym),
                    None => {
                        let full = join_names(target.as_str(), rest.as_str());
                        index.lookup_qualified(full.as_str())
                    },
                }
            },
            None => None,
        }
    } else {
        match walk_outward_exec(index, scope, name) {
            Some(sym) => Some(sym),
            None => index.lookup_qualified(name),
        }
    }
}

/// Name resolution from one scope of an index, through its visibility maps.
#[derive(Clone, Debug)]
pub struct Resolver<'a> {
    index: &'a SymbolIndex,
    current_scope: String,
}

impl<'a> Resolver<'a> {
    /// The index this resolver reads.
    pub closed spec fn index_view(&self) -> IndexView {
        self.index@
    }

    /// Whether the index is well formed.
    pub closed spec fn index_wf(&self) -> bool {
        self.index.wf()
    }

    /// The scope names are resolved from.
    pub closed spec fn scope_view(&self) -> Seq<char> {
        self.current_scope@
    }

    /// A resolver for the root scope.
    pub fn new(index: &'a SymbolIndex) -> (r: Resolver<'a>)
        ensures
            r.index_view() == index@,
            r.index_wf() == index.wf(),
            r.scope_view() == Seq::<char>::empty(),
    {
        Resolver { index, current_scope: String::new() }
    }

    /// The same resolver, for `scope`.
    pub fn with_scope(self, scope: &str) -> (r: Resolver<'a>)
        ensures
            r.index_view() == self.index_view(),
            r.index_wf() == self.index_wf(),
            r.scope_view() == scope@,
    {
        Resolver { index: self.index, current_scope: scope.to_owned() }
    }

    /// Resolves a name (see [`resolve_spec`]). The outcome is never
    /// ambiguous: a name leads to one symbol or to none.
    pub fn resolve(&self, name: &str) -> (r: ResolveResult)
        requires
            self.index_wf(),
        ensures
            found_view(r) == resolve_spec(self.index_view(), self.scope_view(), name@),
            !(r is Ambiguous),
    {
        match resolve_name(self.index, self.current_scope.as_str(), name) {
            Some(sym) => ResolveResult::Found(sym.duplicate()),
            None => ResolveResult::NotFound,
        }
    }

    /// Resolves a name as a type reference: only definition-kind symbols
    /// count, so a usage is never returned.
    pub fn resolve_type(&self, name: &str) -> (r: ResolveResult)
        requires
            self.index_wf(),
        ensures
            found_view(r) == resolve_type_spec(self.index_view(), self.scope_view(), name@),
            r matches ResolveResult::Found(s) ==> is_definition_kind(s@.kind),
            !(r is Ambiguous),
    {
        let result = self.resolve(name);
        match result {
            ResolveResult::Found(sym) => {
                if sym.kind.is_definition() {
                    ResolveResult::Found(sym)
                } else {
                    ResolveResult::NotFound
                }
            },
            ResolveResult::Ambiguous(symbols) => {
                let mut defs: Vec<HirSymbol> = Vec::new();
                let mut i: usize = 0;
                while i < symbols.len()
                    invariant
                        i <= symbols@.len(),
                        forall|k: int| 0 <= k < defs@.len() ==> is_definition_kind(#[trigger] defs@[k]@.kind),
                    decreases symbols@.len() - i,
                {
                    if symbols[i].kind.is_definition() {
                        defs.push(symbols[i].duplicate());
                    }
                    i = i + 1;
                }
                if defs.len() == 0 {
                    ResolveResult::NotFound
                } else if defs.len() == 1 {
                    ResolveResult::Found(defs.pop().unwrap())
                } else {
                    ResolveResult::Ambiguous(defs)
                }
            },
            ResolveResult::NotFound => ResolveResult::NotFound,
        }
    }
}

impl SymbolIndex {
    /// A resolver for `scope` of this index.
    pub fn resolver_for_scope(&self, scope: &str) -> (r: Resolver<'_>)
        ensures
            r.index_view() == self@,
            r.index_wf() == self.wf(),
            r.scope_view() == scope@,
    {
        Resolver::new(self).with_scope(scope)
    }
}

/// What the map of a scope gives is a symbol of the index.
pub proof fn lemma_in_scope_is_entry(v: IndexView, scope: Seq<char>, name: Seq<char>)
    ensures
        in_scope(v, scope, name) matches Some(s) ==> exists|i: int|
            0 <= i < v.entries.len() && v.entries[i].1 == s,
{
    if v.scopes.contains_key(scope) {
        let vis = v.scopes[scope];
        if vis.direct.contains_key(name) {
            lemma_qualified_lookup(v, vis.direct[name]);
        }
        if vis.imports.contains_key(name) {
            lemma_qualified_lookup(v, vis.imports[name]);
        }
    }
}

/// What an outward walk finds is a symbol of the index.
pub proof fn lemma_walk_is_entry(v: IndexView, scope: Seq<char>, name: Seq<char>)
    ensures
        walk_outward(v, scope, name) matches Some(s) ==> exists|i: int|
            0 <= i < v.entries.len() && v.entries[i].1 == s,
    decreases scope.len(),
{
    lemma_in_scope_is_entry(v, scope, name);
    if in_scope(v, scope, name) is None && scope.len() > 0 && outer_of(scope).len() < scope.len() {
        lemma_walk_is_entry(v, outer_of(scope), name);
    }
}

/// What a name resolves to is a symbol of the index.
pub proof fn lemma_resolve_is_entry(v: IndexView, scope: Seq<char>, name: Seq<char>)
    ensures
        resolve_spec(v, scope, name) matches Some(s) ==> exists|i: int|
            0 <= i < v.entries.len() && v.entries[i].1 == s,
    decreases name.len(),
{
    lemma_qualified_lookup(v, name);
    if is_qualified(name) {
        if qualified_lookup(v, name) is None {
            match first_occurrence(name, sep()) {
                Some(i) => if 0 <= i && i + 2 <= name.len() {
                    let head = name.subrange(0, i);
                    let rest = name.subrange(i + 2, name.len() as int);
                    lemma_resolve_is_entry(v, scope, head);
                    match resolve_spec(v, scope, head) {
                        Some(f) => {
                            let target = member_scope(f);
                            if is_qualified(rest) {
                                lemma_resolve_is_entry(v, target, rest);
                            } else {
                                lemma_in_scope_is_entry(v, target, rest);
                                lemma_qualified_lookup(v, join(target, rest));
                            }
                        },
                        None => {},
                    }
                },
                None => {},
            }
        }
    } else {
        lemma_walk_is_entry(v, scope, name);
    }
}

} // verus!

//! The resolution pass: every recorded reference of every symbol resolved
//! to a qualified name, feature chains part by part through the types of
//! the parts before.
use vstd::prelude::*;

use crate::index::{IndexView, SymbolIndex, lemma_qualified_lookup, opt_symbol, qualified_lookup};
use crate::names::{join, join_names, lemma_outer_shorter, opt_view, outer_of, outer_scope, same_text};
use crate::resolver::{resolve_name, resolve_spec};
use crate::symbols::{
    HirSymbol, SymbolView, TypeRef, TypeRefChain, TypeRefKind, TypeRefKindView,
    TypeRefView, is_definition_kind, is_usage_kind, kinds_view, refs_view,
    strings_view,
};

verus! {

/// `name` resolved from `scope`, then from each enclosing scope out to the
/// root, and else taken as a qualified name.
pub open spec fn scope_walk(v: IndexView, scope: Seq<char>, name: Seq<char>) -> Option<SymbolView>
    decreases scope.len(),
{
    match resolve_spec(v, scope, name) {
        Some(s) => Some(s),
        None => if scope.len() == 0 {
            qualified_lookup(v, name)
        } else if outer_of(scope).len() < scope.len() {
            scope_walk(v, outer_of(scope), name)
        } else {
            None
        },
    }
}

/// The qualified name that a plain reference `target`, recorded on the
/// symbol named `owner`, resolves to.
pub open spec fn reference_target(v: IndexView, owner: Seq<char>, target: Seq<char>) -> Option<Seq<char>> {
    match scope_walk(v, owner, target) {
        Some(s) => Some(s.qualified_name),
        None => match qualified_lookup(v, target) {
            Some(s) => Some(s.qualified_name),
            None => None,
        },
    }
}

/// Whether `q` is the qualified name of a symbol of the index.
pub open spec fn names_entry(v: IndexView, q: Seq<char>) -> bool {
    exists|i: int| 0 <= i < v.entries.len() && v.entries[i].1.qualified_name == q
}

/// Whether `n` is `o` with its resolved target set to `t`.
pub open spec fn resolved_as(o: TypeRefView, n: TypeRefView, t: Option<Seq<char>>) -> bool {
    n == TypeRefView { resolved_target: t, ..o }
}

/// The names of the parts of a chain.
pub open spec fn part_targets(a: Seq<TypeRefView>) -> Seq<Seq<char>> {
    Seq::new(a.len(), |i: int| a[i].target)
}

/// Whether `n` is the reference `o` of the symbol named `owner`, resolved:
/// a plain reference and the head of a chain as a plain name, each later
/// part of a chain as a member of the part before.
pub open spec fn reference_resolved(v: IndexView, owner: Seq<char>, o: TypeRefKindView, n: TypeRefKindView) -> bool {
    match (o, n) {
        (TypeRefKindView::Simple(a), TypeRefKindView::Simple(b)) => resolved_as(
            a,
            b,
            reference_target(v, owner, a.target),
        ),
        (TypeRefKindView::Chain(a), TypeRefKindView::Chain(b)) => {
            &&& a.len() == b.len()
            &&& forall|k: int|
                0 <= k < a.len() ==> resolved_as(
                    a[k],
                    #[trigger] b[k],
                    if k == 0 {
                        reference_target(v, owner, a[0].target)
                    } else {
                        chain_target(v, owner, part_targets(a), k)
                    },
                )
        },
        _ => false,
    }
}

/// Whether `n` is the symbol `o` with every reference resolved.
pub open spec fn symbol_resolved(v: IndexView, o: SymbolView, n: SymbolView) -> bool {
    &&& n == SymbolView { type_refs: n.type_refs, ..o }
    &&& n.type_refs.len() == o.type_refs.len()
    &&& forall|k: int|
        0 <= k < o.type_refs.len() ==> reference_resolved(
            v,
            o.qualified_name,
            o.type_refs[k],
            #[trigger] n.type_refs[k],
        )
}

/// The steps the walks of the resolution pass are given: one more than the
/// number of symbols, which is more than any walk can take.
pub open spec fn step_bound(n: nat) -> nat {
    if n < usize::MAX {
        n + 1
    } else {
        n
    }
}

/// The typing chain from `current`: its first supertype resolved from
/// `scope`, and so on, until a definition is reached (its name), a name
/// comes round again, or a step fails (the name reached so far).
pub open spec fn typing_walk(
    v: IndexView,
    scope: Seq<char>,
    current: Seq<char>,
    visited: Seq<Seq<char>>,
    fuel: nat,
) -> Seq<char>
    decreases fuel,
{
    if fuel == 0 {
        current
    } else {
        match qualified_lookup(v, current) {
            None => current,
            Some(here) => if here.supertypes.len() == 0 {
                current
            } else {
                match resolve_spec(v, scope, here.supertypes[0]) {
                    None => current,
                    Some(t) => if visited.contains(t.qualified_name) {
                        current
                    } else if is_definition_kind(t.kind) {
                        t.qualified_name
                    } else {
                        typing_walk(v, scope, t.qualified_name, visited.push(t.qualified_name), (fuel - 1) as nat)
                    },
                }
            },
        }
    }
}

/// Where the typing chain of `s` leads: a definition is its own end.
pub open spec fn typing_target(v: IndexView, s: SymbolView, scope: Seq<char>) -> Seq<char> {
    if is_definition_kind(s.kind) {
        s.qualified_name
    } else {
        typing_walk(v, scope, s.qualified_name, seq![s.qualified_name], step_bound(v.entries.len()))
    }
}

/// The scope that the members of a symbol typed by `t` are looked up in: a
/// usage type itself, else where its typing chain leads.
pub open spec fn type_scope_of(v: IndexView, t: SymbolView, scope: Seq<char>) -> Seq<char> {
    if is_usage_kind(t.kind) {
        t.qualified_name
    } else {
        typing_target(v, t, scope)
    }
}

/// The scope that the members of `s` are looked up in.
pub open spec fn member_lookup_scope(v: IndexView, s: SymbolView, scope: Seq<char>) -> Seq<char> {
    if s.supertypes.len() > 0 {
        match scope_walk(v, outer_of(s.qualified_name), s.supertypes[0]) {
            Some(t) => type_scope_of(v, t, scope),
            None => match qualified_lookup(v, s.supertypes[0]) {
                Some(t) => type_scope_of(v, t, scope),
                None => s.qualified_name,
            },
        }
    } else {
        s.qualified_name
    }
}

/// What the visibility map of `scope` gives `name`, where that leads to a
/// symbol.
pub open spec fn member_via_map(v: IndexView, scope: Seq<char>, name: Seq<char>) -> Option<SymbolView> {
    if v.scopes.contains_key(scope) {
        match crate::visibility::visible(v.scopes[scope], name) {
            Some(q) => qualified_lookup(v, q),
            None => None,
        }
    } else {
        None
    }
}

/// The member `name` of `scope`, with the scopes in `visited` already
/// searched, and the scopes searched after it.
pub open spec fn find_member(
    v: IndexView,
    scope: Seq<char>,
    name: Seq<char>,
    visited: Seq<Seq<char>>,
    depth: nat,
) -> (Option<SymbolView>, Seq<Seq<char>>)
    decreases depth, 1nat, 0nat,
{
    match qualified_lookup(v, join(scope, name)) {
        Some(s) => (Some(s), visited),
        None => match member_via_map(v, scope, name) {
            Some(s) => (Some(s), visited),
            None => if depth == 0 {
                (None, visited)
            } else {
                match qualified_lookup(v, scope) {
                    None => (None, visited.push(scope)),
                    Some(ts) => search_supertypes(
                        v,
                        ts.supertypes,
                        0,
                        outer_of(scope),
                        name,
                        visited.push(scope),
                        depth,
                    ),
                }
            },
        },
    }
}

/// The member `name` in the supertypes from the `k`-th on, each resolved
/// from `parent`, in order; a supertype already searched is skipped.
pub open spec fn search_supertypes(
    v: IndexView,
    supers: Seq<Seq<char>>,
    k: int,
    parent: Seq<char>,
    name: Seq<char>,
    visited: Seq<Seq<char>>,
    depth: nat,
) -> (Option<SymbolView>, Seq<Seq<char>>)
    decreases depth, 0nat, supers.len() - k,
{
    if k < 0 || k >= supers.len() || depth == 0 {
        (None, visited)
    } else {
        match scope_walk(v, parent, supers[k]) {
            Some(sup) => if !visited.contains(sup.qualified_name) {
                let found = find_member(v, sup.qualified_name, name, visited, (depth - 1) as nat);
                if found.0 is Some {
                    found
                } else {
                    search_supertypes(v, supers, k + 1, parent, name, found.1, depth)
                }
            } else {
                search_supertypes(v, supers, k + 1, parent, name, visited, depth)
            },
            None => search_supertypes(v, supers, k + 1, parent, name, visited, depth),
        }
    }
}

/// The view of an optional owned symbol.
pub open spec fn owned_view(o: Option<HirSymbol>) -> Option<SymbolView> {
    match o {
        Some(s) => Some(s@),
        None => None,
    }
}

/// The member `name` of `scope`, searched afresh.
pub open spec fn member_of_scope(v: IndexView, scope: Seq<char>, name: Seq<char>) -> Option<SymbolView> {
    find_member(v, scope, name, Seq::empty(), v.entries.len()).0
}

/// The member `name` of the symbol named `sym`, else of its type scope.
pub open spec fn chain_step(v: IndexView, sym: Seq<char>, ty: Seq<char>, name: Seq<char>) -> Option<SymbolView> {
    match member_of_scope(v, sym, name) {
        Some(m) => Some(m),
        None => if sym == ty {
            None
        } else {
            member_of_scope(v, ty, name)
        },
    }
}

/// Parts `i` to `idx` of a chain, from the symbol named `sym` with type
/// scope `ty`: the qualified name of part `idx`.
pub open spec fn chain_walk(
    v: IndexView,
    scope: Seq<char>,
    parts: Seq<Seq<char>>,
    i: int,
    idx: int,
    sym: Seq<char>,
    ty: Seq<char>,
) -> Option<Seq<char>>
    decreases idx + 1 - i,
{
    if i < 1 || i > idx || idx >= parts.len() {
        None
    } else {
        match chain_step(v, sym, ty, parts[i]) {
            None => None,
            Some(m) => if i == idx {
                Some(m.qualified_name)
            } else {
                chain_walk(v, scope, parts, i + 1, idx, m.qualified_name, member_lookup_scope(v, m, scope))
            },
        }
    }
}

/// The qualified name that part `idx` (after the first) of a chain recorded
/// on the symbol named `scope` resolves to.
pub open spec fn chain_target(v: IndexView, scope: Seq<char>, parts: Seq<Seq<char>>, idx: int) -> Option<Seq<char>> {
    if idx == 0 || idx >= parts.len() {
        None
    } else {
        match scope_walk(v, scope, parts[0]) {
            None => None,
            Some(first) => chain_walk(
                v,
                scope,
                parts,
                1,
                idx,
                first.qualified_name,
                member_lookup_scope(v, first, scope),
            ),
        }
    }
}

impl SymbolIndex {
    /// `name` resolved from `starting_scope` outward (see [`scope_walk`]).
    pub(crate) fn resolve_with_scope_walk(&self, name: &str, starting_scope: &str) -> (r: Option<&HirSymbol>)
        requires
            self.wf(),
        ensures
            opt_symbol(r) == scope_walk(self@, starting_scope@, name@),
    {
        let mut current = starting_scope.to_owned();
        loop
            invariant
                self.wf(),
                scope_walk(self@, starting_scope@, name@) == scope_walk(self@, current@, name@),
            decreases current@.len(),
        {
            match resolve_name(self, current.as_str(), name) {
                Some(sym) => {
                    return Some(sym);
                },
                None => {},
            }
            if current.unicode_len() == 0 {
                return self.lookup_qualified(name);
            }
            proof {
                lemma_outer_shorter(current@);
            }
            current = outer_scope(current.as_str());
        }
    }

    /// Follows a usage's typing chain to a definition: its first supertype
    /// is resolved, and so on, until a definition is reached or a name comes
    /// round again. A definition is returned as it is. Each step visits the
    /// qualified name of a symbol not visited before, so the walk ends within
    /// one step more than there are symbols; the step bound only makes that
    /// visible.
    fn follow_typing_chain(&self, sym: &HirSymbol, scope: &str) -> (r: String)
        requires
            self.wf(),
        ensures
            r@ == typing_target(self@, sym@, scope@),
            r@ == sym@.qualified_name || names_entry(self@, r@),
    {
        if sym.kind.is_definition() {
            return sym.qualified_name.clone();
        }
        let mut current = sym.qualified_name.clone();
        let mut visited: Vec<String> = Vec::new();
        visited.push(current.clone());
        proof {
            self.reveal_wf();
            assert(strings_view(visited@) =~= seq![sym@.qualified_name]);
        }
        let len = self.symbols.len();
        let mut fuel: usize = if len < usize::MAX {
            len + 1
        } else {
            len
        };
        while fuel > 0
            invariant
                self.wf(),
                !is_definition_kind(sym@.kind),
                current@ == sym@.qualified_name || names_entry(self@, current@),
                typing_target(self@, sym@, scope@) == typing_walk(self@, scope@, current@, strings_view(visited@), fuel as nat),
            decreases fuel,
        {
            let here = match self.lookup_qualified(current.as_str()) {
                Some(s) => s,
                None => {
                    return current;
                },
            };
            if here.supertypes.len() == 0 {
                return current;
            }
            assert(here@.supertypes[0] == here.supertypes@[0]@);
            let type_sym = match resolve_name(self, scope, here.supertypes[0].as_str()) {
                Some(t) => t,
                None => {
                    return current;
                },
            };
            proof {
                crate::resolver::lemma_resolve_is_entry(self@, scope@, here@.supertypes[0]);
            }
            if contains_text(&visited, type_sym.qualified_name.as_str()) {
                return current;
            }
            let ghost before = visited@;
            visited.push(type_sym.qualified_name.clone());
            proof {
                assert(strings_view(visited@) =~= strings_view(before).push(type_sym@.qualified_name));
            }
            if type_sym.kind.is_definition() {
                return type_sym.qualified_name.clone();
            }
            current = type_sym.qualified_name.clone();
            fuel = fuel - 1;
        }
        current
    }

    /// The scope that members of `sym` are looked up in: where it has a type
    /// (its first supertype), a usage type itself, or the definition its
    /// typing chain leads to; with no type, its own qualified name.
    fn get_member_lookup_scope(&self, sym: &HirSymbol, resolution_scope: &str) -> (r: String)
        requires
            self.wf(),
        ensures
            r@ == member_lookup_scope(self@, sym@, resolution_scope@),
            r@ == sym@.qualified_name || names_entry(self@, r@),
    {
        if sym.supertypes.len() > 0 {
            let typed_by = sym.supertypes[0].as_str();
            assert(typed_by@ == sym@.supertypes[0]);
            let sym_scope = outer_scope(sym.qualified_name.as_str());
            match self.resolve_with_scope_walk(typed_by, sym_scope.as_str()) {
                Some(t) => {
                    proof {
                        lemma_scope_walk_is_entry(self@, sym_scope@, typed_by@);
                    }
                    if t.kind.is_usage() {
                        return t.qualified_name.clone();
                    }
                    let r = self.follow_typing_chain(t, resolution_scope);
                    return r;
                },
                None => {},
            }
            match self.lookup_qualified(typed_by) {
                Some(t) => {
                    proof {
                        lemma_qualified_lookup(self@, typed_by@);
                    }
                    if t.kind.is_usage() {
                        return t.qualified_name.clone();
                    }
                    return self.follow_typing_chain(t, resolution_scope);
                },
                None => {},
            }
        }
        sym.qualified_name.clone()
    }

    /// Finds a member named `member_name` of `type_scope`: the symbol named
    /// `type_scope::member_name`, else what the scope's visibility map gives
    /// the name, else a member of one of its supertypes, searched in order.
    pub fn find_member_in_scope(&self, type_scope: &str, member_name: &str) -> (r: Option<HirSymbol>)
        requires
            self.wf(),
        ensures
            owned_view(r) == member_of_scope(self@, type_scope@, member_name@),
            qualified_lookup(self@, join(type_scope@, member_name@)) matches Some(s) ==> r matches Some(m) && m@ == s,
            r matches Some(m) ==> exists|i: int| 0 <= i < self@.entries.len() && self@.entries[i].1 == m@,
    {
        proof {
            self.reveal_wf();
        }
        let mut visited: Vec<String> = Vec::new();
        assert(strings_view(visited@) =~= Seq::<Seq<char>>::empty());
        let depth = self.symbols.len();
        self.find_member_rec(type_scope, member_name, &mut visited, depth)
    }

    /// The member search, with the supertype scopes already searched; each
    /// level adds one, so `depth` (the number of symbols) never runs out.
    fn find_member_rec(&self, type_scope: &str, member_name: &str, visited: &mut Vec<String>, depth: usize) -> (r: Option<HirSymbol>)
        requires
            self.wf(),
        ensures
            (owned_view(r), strings_view(final(visited)@)) == find_member(self@, type_scope@, member_name@, strings_view(old(visited)@), depth as nat),
            qualified_lookup(self@, join(type_scope@, member_name@)) matches Some(s) ==> r matches Some(m) && m@ == s,
            r matches Some(m) ==> exists|i: int| 0 <= i < self@.entries.len() && self@.entries[i].1 == m@,
        decreases depth,
    {
        let direct = join_names(type_scope, member_name);
        match self.lookup_qualified(direct.as_str()) {
            Some(sym) => {
                proof {
                    lemma_qualified_lookup(self@, direct@);
                }
                return Some(sym.duplicate());
            },
            None => {},
        }
        match self.visibility_for_scope(type_scope) {
            Some(vis) => match vis.lookup(member_name) {
                Some(q) => match self.lookup_qualified(q.as_str()) {
                    Some(sym) => {
                        proof {
                            lemma_qualified_lookup(self@, q@);
                        }
                        return Some(sym.duplicate());
                    },
                    None => {},
                },
                None => {},
            },
            None => {},
        }
        if depth == 0 {
            return None;
        }
        let ghost v0 = strings_view(visited@);
        visited.push(type_scope.to_owned());
        proof {
            assert(strings_view(visited@) =~= v0.push(type_scope@));
        }
        match self.lookup_qualified(type_scope) {
            Some(type_sym) => {
                let parent = outer_scope(type_scope);
                let ghost target = find_member(self@, type_scope@, member_name@, v0, depth as nat);
                let mut k: usize = 0;
                while k < type_sym.supertypes.len()
                    invariant
                        self.wf(),
                        k <= type_sym.supertypes@.len(),
                        depth > 0,
                        parent@ == outer_of(type_scope@),
                        qualified_lookup(self@, join(type_scope@, member_name@)) is None,
                        target == search_supertypes(self@, type_sym@.supertypes, k as int, parent@, member_name@, strings_view(visited@), depth as nat),
                        v0 == strings_view(old(visited)@),
                        target == find_member(self@, type_scope@, member_name@, v0, depth as nat),
                    decreases type_sym.supertypes@.len() - k,
                {
                    assert(type_sym@.supertypes[k as int] == type_sym.supertypes@[k as int]@);
                    match self.resolve_with_scope_walk(type_sym.supertypes[k].as_str(), parent.as_str()) {
                        Some(super_sym) => {
                            if !contains_text(visited, super_sym.qualified_name.as_str()) {
                                let ghost pre = strings_view(visited@);
                                let ghost sup = super_sym@;
                                match self.find_member_rec(super_sym.qualified_name.as_str(), member_name, visited, depth - 1) {
                                    Some(found) => {
                                        proof {
                                            let f = find_member(self@, sup.qualified_name, member_name@, pre, (depth - 1) as nat);
                                            assert(f.0 is Some);
                                            assert(search_supertypes(self@, type_sym@.supertypes, k as int, parent@, member_name@, pre, depth as nat) == f);
                                        }
                                        return Some(found);
                                    },
                                    None => {},
                                }
                            }
                        },
                        None => {},
                    }
                    k = k + 1;
                }
            },
            None => {},
        }
        None
    }

    /// Resolves part `chain_idx` of a feature chain recorded in `scope`:
    /// the first part lexically, each later one as a member of the part
    /// before (first among its own nested members, then in its type).
    fn resolve_feature_chain_member(&self, scope: &str, chain_parts: &Vec<String>, chain_idx: usize) -> (r: Option<String>)
        requires
            self.wf(),
        ensures
            opt_view(r) == chain_target(self@, scope@, strings_view(chain_parts@), chain_idx as int),
            r matches Some(q) ==> names_entry(self@, q@),
    {
        let ghost parts = strings_view(chain_parts@);
        if chain_idx == 0 || chain_idx >= chain_parts.len() {
            return None;
        }
        assert(parts[0] == chain_parts@[0]@);
        let first = match self.resolve_with_scope_walk(chain_parts[0].as_str(), scope) {
            Some(s) => s,
            None => {
                return None;
            },
        };
        let mut current_sym = first.qualified_name.clone();
        let mut current_type = self.get_member_lookup_scope(first, scope);
        let mut i: usize = 1;
        while i <= chain_idx
            invariant
                self.wf(),
                1 <= i,
                chain_idx < chain_parts@.len(),
                parts == strings_view(chain_parts@),
                chain_target(self@, scope@, parts, chain_idx as int) == chain_walk(self@, scope@, parts, i as int, chain_idx as int, current_sym@, current_type@),
            decreases chain_idx + 1 - i,
        {
            let part = chain_parts[i].as_str();
            assert(parts[i as int] == part@);
            let member = match self.find_member_in_scope(current_sym.as_str(), part) {
                Some(m) => m,
                None => {
                    if same_text(current_sym.as_str(), current_type.as_str()) {
                        return None;
                    }
                    match self.find_member_in_scope(current_type.as_str(), part) {
                        Some(m) => m,
                        None => {
                            return None;
                        },
                    }
                },
            };
            proof {
                let j = choose|j: int| 0 <= j < self@.entries.len() && self@.entries[j].1 == member@;
                assert(self@.entries[j].1.qualified_name == member@.qualified_name);
            }
            if i == chain_idx {
                return Some(member.qualified_name.clone());
            }
            current_sym = member.qualified_name.clone();
            current_type = self.get_member_lookup_scope(&member, scope);
            i = i + 1;
        }
        None
    }

    /// Resolves one reference recorded on the symbol named
    /// `containing_symbol`: a part after the first of a chain as a chain
    /// member, anything else as a plain name.
    fn resolve_type_ref(&self, containing_symbol: &str, target: &str, chain_context: Option<(&Vec<String>, usize)>) -> (r: Option<String>)
        requires
            self.wf(),
        ensures
            match chain_context {
                Some((parts, idx)) if idx > 0 => opt_view(r) == chain_target(self@, containing_symbol@, strings_view(parts@), idx as int),
                _ => opt_view(r) == reference_target(self@, containing_symbol@, target@),
            },
    {
        match chain_context {
            Some((parts, idx)) => {
                if idx > 0 {
                    return self.resolve_feature_chain_member(containing_symbol, parts, idx);
                }
            },
            None => {},
        }
        match self.resolve_with_scope_walk(target, containing_symbol) {
            Some(sym) => Some(sym.qualified_name.clone()),
            None => match self.lookup_qualified(target) {
                Some(sym) => Some(sym.qualified_name.clone()),
                None => None,
            },
        }
    }

    /// The references of the symbol at `i`, resolved.
    fn resolved_refs_of(&self, i: usize) -> (r: Vec<TypeRefKind>)
        requires
            self.wf(),
            i < self@.entries.len(),
        ensures
            kinds_view(r@).len() == self@.entries[i as int].1.type_refs.len(),
            forall|k: int|
                0 <= k < r@.len() ==> reference_resolved(
                    self@,
                    self@.entries[i as int].1.qualified_name,
                    self@.entries[i as int].1.type_refs[k],
                    #[trigger] kinds_view(r@)[k],
                ),
    {
        proof {
            self.reveal_wf();
            self.lemma_entry_parts(i as int);
        }
        let sym = &self.symbols[i];
        let owner = sym.qualified_name.as_str();
        let mut out: Vec<TypeRefKind> = Vec::new();
        let mut k: usize = 0;
        while k < sym.type_refs.len()
            invariant
                self.wf(),
                i < self@.entries.len(),
                self@.entries[i as int].1 == sym@,
                owner@ == sym@.qualified_name,
                k <= sym.type_refs@.len(),
                out@.len() == k,
                forall|m: int|
                    0 <= m < k ==> reference_resolved(
                        self@,
                        sym@.qualified_name,
                        sym@.type_refs[m],
                        #[trigger] kinds_view(out@)[m],
                    ),
            decreases sym.type_refs@.len() - k,
        {
            let resolved = match &sym.type_refs[k] {
                TypeRefKind::Simple(tr) => {
                    let t = self.resolve_type_ref(owner, tr.target.as_str(), None);
                    let mut n = tr.duplicate();
                    n.resolved_target = t;
                    let r = TypeRefKind::Simple(n);
                    proof {
                        assert(sym@.type_refs[k as int] == TypeRefKindView::Simple(tr@));
                        assert(reference_resolved(self@, sym@.qualified_name, sym@.type_refs[k as int], r@));
                    }
                    r
                },
                TypeRefKind::Chain(c) => {
                    let mut targets: Vec<String> = Vec::new();
                    let mut p: usize = 0;
                    while p < c.parts.len()
                        invariant
                            p <= c.parts@.len(),
                            targets@.len() == p,
                            forall|m: int| 0 <= m < p ==> #[trigger] targets@[m]@ == c.parts@[m].target@,
                        decreases c.parts@.len() - p,
                    {
                        targets.push(c.parts[p].target.clone());
                        p = p + 1;
                    }
                    assert(strings_view(targets@) =~= part_targets(refs_view(c.parts@)));
                    let mut parts: Vec<TypeRef> = Vec::new();
                    let mut p: usize = 0;
                    while p < c.parts.len()
                        invariant
                            self.wf(),
                            owner@ == sym@.qualified_name,
                            p <= c.parts@.len(),
                            targets@.len() == c.parts@.len(),
                            forall|m: int| 0 <= m < c.parts@.len() ==> #[trigger] targets@[m]@ == c.parts@[m].target@,
                            parts@.len() == p,
                            strings_view(targets@) == part_targets(refs_view(c.parts@)),
                            forall|m: int| 0 <= m < p ==> resolved_as(c.parts@[m]@, #[trigger] parts@[m]@, if m == 0 {
                                reference_target(self@, owner@, c.parts@[0].target@)
                            } else {
                                chain_target(self@, owner@, part_targets(refs_view(c.parts@)), m)
                            }),
                        decreases c.parts@.len() - p,
                    {
                        let t = self.resolve_type_ref(owner, c.parts[p].target.as_str(), Some((&targets, p)));
                        let mut n = c.parts[p].duplicate();
                        n.resolved_target = t;
                        parts.push(n);
                        p = p + 1;
                    }
                    let r = TypeRefKind::Chain(TypeRefChain { parts });
                    proof {
                        let a = refs_view(c.parts@);
                        let b = refs_view(parts@);
                        assert(r@ == TypeRefKindView::Chain(b));
                        assert(sym@.type_refs[k as int] == TypeRefKindView::Chain(a));
                        assert forall|m: int| 0 <= m < a.len() implies resolved_as(a[m], #[trigger] b[m], if m == 0 {
                            reference_target(self@, sym@.qualified_name, a[0].target)
                        } else {
                            chain_target(self@, sym@.qualified_name, part_targets(a), m)
                        }) by {
                            assert(b[m] == parts@[m]@);
                            assert(a[m] == c.parts@[m]@);
                            assert(a[0] == c.parts@[0]@);
                        }
                        assert(reference_resolved(self@, sym@.qualified_name, sym@.type_refs[k as int], r@));
                    }
                    r
                },
            };
            let ghost before_out = out@;
            out.push(resolved);
            proof {
                assert(kinds_view(out@) =~= kinds_view(before_out).push(resolved@));
            }
            k = k + 1;
        }
        out
    }

    /// Resolves every recorded reference of every symbol, after bringing the
    /// visibility maps up to date; nothing else about the symbols changes.
    pub fn resolve_all_type_refs(&mut self)
        requires
            old(self).wf(),
        ensures
            final(self).wf(),
            !final(self)@.dirty,
            old(self)@.dirty ==> crate::builder::maps_fresh(
                IndexView { scopes: final(self)@.scopes, dirty: false, ..old(self)@ },
            ),
            final(self)@.files == old(self)@.files,
            final(self)@.entries.len() == old(self)@.entries.len(),
            forall|i: int|
                0 <= i < old(self)@.entries.len() ==> (#[trigger] final(self)@.entries[i]).0 == old(self)@.entries[i].0
                    && symbol_resolved(
                    IndexView { scopes: final(self)@.scopes, dirty: false, ..old(self)@ },
                    old(self)@.entries[i].1,
                    final(self)@.entries[i].1,
                ),
    {
        self.ensure_visibility_maps();
        let ghost mid = self@;
        proof {
            self.reveal_wf();
        }
        let n = self.symbols.len();
        let mut all: Vec<Vec<TypeRefKind>> = Vec::new();
        let mut i: usize = 0;
        while i < n
            invariant
                self.wf(),
                self@ == mid,
                n == self@.entries.len(),
                i <= n,
                all@.len() == i,
                forall|m: int| 0 <= m < i ==> kinds_view(#[trigger] all@[m]@).len() == mid.entries[m].1.type_refs.len()
                    && forall|k: int| 0 <= k < all@[m]@.len() ==> reference_resolved(
                        mid,
                        mid.entries[m].1.qualified_name,
                        mid.entries[m].1.type_refs[k],
                        #[trigger] kinds_view(all@[m]@)[k],
                    ),
            decreases n - i,
        {
            proof {
                self.reveal_wf();
            }
            all.push(self.resolved_refs_of(i));
            i = i + 1;
        }
        let mut i: usize = n;
        while i > 0
            invariant
                self.wf(),
                self@.entries.len() == mid.entries.len(),
                self@.scopes == mid.scopes,
                self@.files == mid.files,
                !self@.dirty,
                i <= n,
                n == mid.entries.len(),
                all@.len() == i,
                forall|m: int| 0 <= m < i ==> kinds_view(#[trigger] all@[m]@).len() == mid.entries[m].1.type_refs.len()
                    && forall|k: int| 0 <= k < all@[m]@.len() ==> reference_resolved(
                        mid,
                        mid.entries[m].1.qualified_name,
                        mid.entries[m].1.type_refs[k],
                        #[trigger] kinds_view(all@[m]@)[k],
                    ),
                forall|m: int| 0 <= m < i ==> #[trigger] self@.entries[m] == mid.entries[m],
                forall|m: int| i <= m < n ==> (#[trigger] self@.entries[m]).0 == mid.entries[m].0
                    && symbol_resolved(mid, mid.entries[m].1, self@.entries[m].1),
            decreases i,
        {
            let refs = all.pop().unwrap();
            i = i - 1;
            let ghost before = *self;
            proof {
                self.reveal_wf();
                self.reveal_view();
            }
            let mut sym = self.symbols[i].duplicate();
            sym.type_refs = refs;
            self.symbols.set(i, sym);
            proof {
                before.reveal_view();
                self.reveal_view();
                self.establish_wf();
                assert forall|m: int| 0 <= m < n && m != i implies #[trigger] self@.entries[m] == before@.entries[m] by {
                    assert(self.symbols@[m] == before.symbols@[m]);
                }
                assert(before@.entries[i as int] == mid.entries[i as int]);
                assert(self@.entries[i as int].1 == SymbolView { type_refs: self@.entries[i as int].1.type_refs, ..mid.entries[i as int].1 });
                assert(symbol_resolved(mid, mid.entries[i as int].1, self@.entries[i as int].1));
            }
        }
        proof {
            self.reveal_view();
            assert(IndexView { scopes: self@.scopes, dirty: false, ..old(self)@ } == mid);
        }
    }
}

/// Whether a list of strings holds `s`.
fn contains_text(v: &Vec<String>, s: &str) -> (r: bool)
    ensures
        r == strings_view(v@).contains(s@),
{
    let mut i: usize = 0;
    while i < v.len()
        invariant
            i <= v@.len(),
            forall|k: int| 0 <= k < i ==> v@[k]@ != s@,
        decreases v@.len() - i,
    {
        if same_text(v[i].as_str(), s) {
            assert(strings_view(v@)[i as int] == s@);
            return true;
        }
        i = i + 1;
    }
    false
}

/// What a scope walk finds is a symbol of the index.
proof fn lemma_scope_walk_is_entry(v: IndexView, scope: Seq<char>, name: Seq<char>)
    ensures
        scope_walk(v, scope, name) matches Some(s) ==> exists|i: int|
            0 <= i < v.entries.len() && v.entries[i].1 == s,
    decreases scope.len(),
{
    crate::resolver::lemma_resolve_is_entry(v, scope, name);
    lemma_qualified_lookup(v, name);
    if resolve_spec(v, scope, name) is None && scope.len() > 0 && outer_of(scope).len() < scope.len() {
        lemma_scope_walk_is_entry(v, outer_of(scope), name);
    }
}

} // verus!

//! Building the visibility maps: scope discovery, direct members,
//! inheritance of supertype members, and imports with transitive public
//! re-export.
use vstd::prelude::*;

use crate::index::{
    Entry, IndexView, Query, SymbolIndex, last_symbol, lemma_scope_map, qualified_lookup, scope_map,
    scopes_unique,
};
use crate::names::{
    join_in, opt_view, outer_of, chars_of, find_in, is_qualified_exec, join_names_in, lemma_outer_shorter, outer_scope, parent_of, parent_scope, rfind_in, same_text, sep_chars, slice_of,
};
use crate::chains::step_bound;
use crate::symbols::{strings_view, SymbolKind, SymbolView, is_definition_kind};
use crate::table::{keys_unique, lemma_table_map, table_map};
use crate::visibility::{ScopeVisibility, VisibilityView};

verus! {

/// Whether a symbol is a direct member of `scope`: its parent is `scope`, or
/// it has no parent and `scope` is the root.
pub open spec fn member_of(s: SymbolView, scope: Seq<char>) -> bool {
    match parent_of(s.qualified_name) {
        Some(p) => p == scope,
        None => scope.len() == 0,
    }
}

/// Whether a symbol opens a namespace of its own (a package or a definition).
pub open spec fn opens_scope(s: SymbolView) -> bool {
    s.kind == SymbolKind::Package || is_definition_kind(s.kind)
}

/// Whether `scope` is a scope of the entries: the root, a parent of a
/// symbol, or a namespace-opening symbol.
pub open spec fn is_scope(e: Seq<Entry>, scope: Seq<char>) -> bool {
    scope.len() == 0 || exists|i: int|
        0 <= i < e.len() && (parent_of(e[i].1.qualified_name) == Some(scope) || (opens_scope(e[i].1)
            && e[i].1.qualified_name == scope))
}

/// `l` with `x` added at the end unless it is there.
pub open spec fn add_new(l: Seq<Seq<char>>, x: Seq<char>) -> Seq<Seq<char>> {
    if l.contains(x) {
        l
    } else {
        l.push(x)
    }
}

/// The scopes met in the first `n` entries, in the order first met: each
/// symbol's parent, then the symbol itself where it opens a namespace.
pub open spec fn scopes_upto(e: Seq<Entry>, n: int) -> Seq<Seq<char>>
    decreases n,
{
    if n <= 0 {
        Seq::empty()
    } else {
        let prev = scopes_upto(e, n - 1);
        let s = e[n - 1].1;
        let with_parent = match parent_of(s.qualified_name) {
            Some(p) => add_new(prev, p),
            None => prev,
        };
        if opens_scope(s) {
            add_new(with_parent, s.qualified_name)
        } else {
            with_parent
        }
    }
}

/// Every scope of the entries, in the order the build takes them: as first
/// met, then the root where it was not met.
pub open spec fn scope_order(e: Seq<Entry>) -> Seq<Seq<char>> {
    add_new(scopes_upto(e, e.len() as int), Seq::empty())
}

/// Each scope in build order with its declared members.
pub open spec fn ordered_declared(e: Seq<Entry>) -> Seq<(Seq<char>, Map<Seq<char>, Seq<char>>)> {
    Seq::new(scope_order(e).len(), |k: int| (scope_order(e)[k], declared(e, scope_order(e)[k], e.len() as int)))
}

/// The direct entries that the first `n` entries give `scope`: each member
/// under its simple name and its short name, a later one replacing an
/// earlier one.
pub open spec fn declared(e: Seq<Entry>, scope: Seq<char>, n: int) -> Map<Seq<char>, Seq<char>>
    decreases n,
{
    if n <= 0 {
        Map::empty()
    } else {
        let m = declared(e, scope, n - 1);
        let s = e[n - 1].1;
        if member_of(s, scope) {
            let m1 = m.insert(s.name, s.qualified_name);
            match s.short_name {
                Some(sh) => m1.insert(sh, s.qualified_name),
                None => m1,
            }
        } else {
            m
        }
    }
}

/// The visibility maps before inheritance and imports: each scope with its
/// declared members.
pub open spec fn declared_maps(e: Seq<Entry>) -> Map<Seq<char>, VisibilityView> {
    Map::new(
        |s: Seq<char>| is_scope(e, s),
        |s: Seq<char>|
            VisibilityView {
                scope: s,
                direct: declared(e, s, e.len() as int),
                imports: Map::empty(),
                reexports: Seq::empty(),
            },
    )
}

/// Whether `d` lists each scope of the entries once, with its declared
/// members.
pub open spec fn lists_declared(e: Seq<Entry>, d: Seq<(Seq<char>, Map<Seq<char>, Seq<char>>)>) -> bool {
    &&& forall|k: int| 0 <= k < d.len() ==> is_scope(e, #[trigger] d[k].0) && d[k].1 == declared(e, d[k].0, e.len() as int)
    &&& forall|s: Seq<char>| is_scope(e, s) ==> exists|k: int| 0 <= k < d.len() && #[trigger] d[k].0 == s
    &&& forall|a: int, b: int| 0 <= a < b < d.len() ==> d[a].0 != d[b].0
}

/// Whether the direct entries of each scope of `scopes` are those of its
/// scope in the table `d`.
pub open spec fn directs_match(scopes: Map<Seq<char>, VisibilityView>, d: Seq<(Seq<char>, Map<Seq<char>, Seq<char>>)>) -> bool {
    forall|s: Seq<char>| #[trigger] scopes.contains_key(s) ==> (position_in(d, s) matches Some(p) && d[p].1 == scopes[s].direct)
}

/// Whether the direct entries of every scope are what inheritance gives:
/// each scope's declared members, and then, for each (symbol, supertype)
/// pair in order, the supertype's direct entries under the names the
/// symbol's scope lacks.
pub open spec fn directs_inherited(v: IndexView) -> bool {
    exists|d0: Seq<(Seq<char>, Map<Seq<char>, Seq<char>>)>| #[trigger] lists_declared(v.entries, d0) && directs_match(
        v.scopes,
        inherit_all(
            d0,
            inherit_pairs(v.entries, declared_maps(v.entries), v.entries.len() as int),
            inherit_pairs(v.entries, declared_maps(v.entries), v.entries.len() as int).len() as int,
        ),
    )
}

/// Whether every map is what the whole build gives: the declared members,
/// then inheritance, then the imports of each scope, scopes taken in build
/// order.
pub open spec fn maps_built(v: IndexView) -> bool {
    let d0 = ordered_declared(v.entries);
    lists_declared(v.entries, d0) && {
        let pairs = inherit_pairs(v.entries, declared_maps(v.entries), v.entries.len() as int);
        let d = inherit_all(d0, pairs, pairs.len() as int);
        let f = imports_all(
            v.entries,
            start_views(d),
            0,
            Seq::empty(),
            step_bound(count_imports(v.entries, v.entries.len() as int)),
        );
        forall|s: Seq<char>| #[trigger] v.scopes.contains_key(s) ==> (view_position(f, s) matches Some(p) && f[p] == v.scopes[s])
    }
}

/// Whether no name of a map is both direct and imported.
pub open spec fn disjoint(v: VisibilityView) -> bool {
    forall|n: Seq<char>| #[trigger] v.imports.contains_key(n) ==> !v.direct.contains_key(n)
}

/// Whether every map of a table is disjoint.
pub open spec fn table_disjoint(t: Seq<ScopeVisibility>) -> bool {
    forall|k: int| 0 <= k < t.len() ==> disjoint(#[trigger] t[k]@)
}

/// The visibility maps are those of the current entries: one per scope,
/// each scope's declared members are among its direct entries, and no name
/// is both direct and imported.
pub open spec fn maps_fresh(v: IndexView) -> bool {
    &&& forall|s: Seq<char>| #[trigger] v.scopes.contains_key(s) <==> is_scope(v.entries, s)
    &&& forall|s: Seq<char>|
        #[trigger] v.scopes.contains_key(s) ==> declared(v.entries, s, v.entries.len() as int).submap_of(
            v.scopes[s].direct,
        ) && disjoint(v.scopes[s])
    &&& directs_inherited(v)
    &&& maps_built(v)
}

/// `name` looked up for inheritance from `scope` outward: at each level
/// `scope::name` as a qualified name, then the scope's direct entries.
pub open spec fn inherit_walk(
    e: Seq<Entry>,
    scopes: Map<Seq<char>, VisibilityView>,
    name: Seq<char>,
    scope: Seq<char>,
) -> Option<Seq<char>>
    decreases scope.len(),
{
    match last_symbol(e, Query::Qualified(join_in(scope, name))) {
        Some(s) => Some(s.qualified_name),
        None => if scopes.contains_key(scope) && scopes[scope].direct.contains_key(name) {
            Some(scopes[scope].direct[name])
        } else if scope.len() == 0 {
            None
        } else if outer_of(scope).len() < scope.len() {
            inherit_walk(e, scopes, name, outer_of(scope))
        } else {
            None
        },
    }
}

/// The qualified name a supertype name stands for during inheritance: an
/// exact qualified name, else the outward walk from `scope`.
pub open spec fn inherit_target(
    e: Seq<Entry>,
    scopes: Map<Seq<char>, VisibilityView>,
    name: Seq<char>,
    scope: Seq<char>,
) -> Option<Seq<char>> {
    match last_symbol(e, Query::Qualified(name)) {
        Some(s) => Some(s.qualified_name),
        None => inherit_walk(e, scopes, name, scope),
    }
}

/// The scope and direct entries of each map of a table, in order.
pub open spec fn direct_table(t: Seq<ScopeVisibility>) -> Seq<(Seq<char>, Map<Seq<char>, Seq<char>>)> {
    Seq::new(t.len(), |k: int| (t[k]@.scope, t[k]@.direct))
}

/// The position of the map of `s` in a table of direct entries.
pub open spec fn position_in(d: Seq<(Seq<char>, Map<Seq<char>, Seq<char>>)>, s: Seq<char>) -> Option<int> {
    if exists|k: int| 0 <= k < d.len() && d[k].0 == s {
        Some(choose|k: int| 0 <= k < d.len() && d[k].0 == s)
    } else {
        None
    }
}

/// One inheritance step: the scope `child`, where it has a map, gains each
/// direct entry of `parent` under a name it does not have yet.
pub open spec fn inherit_step(
    d: Seq<(Seq<char>, Map<Seq<char>, Seq<char>>)>,
    child: Seq<char>,
    parent: Seq<char>,
) -> Seq<(Seq<char>, Map<Seq<char>, Seq<char>>)> {
    match position_in(d, child) {
        Some(c) => d.update(
            c,
            (
                child,
                match position_in(d, parent) {
                    Some(p) => d[p].1,
                    None => Map::empty(),
                }.union_prefer_right(d[c].1),
            ),
        ),
        None => d,
    }
}

/// The first `n` inheritance steps, in order.
pub open spec fn inherit_all(
    d: Seq<(Seq<char>, Map<Seq<char>, Seq<char>>)>,
    pairs: Seq<(Seq<char>, Seq<char>)>,
    n: int,
) -> Seq<(Seq<char>, Map<Seq<char>, Seq<char>>)>
    decreases n,
{
    if n <= 0 {
        d
    } else {
        let prev = inherit_all(d, pairs, n - 1);
        inherit_step(prev, pairs[n - 1].0, pairs[n - 1].1)
    }
}

/// The (symbol, supertype) pairs of the first `m` supertypes of `s` that
/// resolve for inheritance.
pub open spec fn pairs_of(
    e: Seq<Entry>,
    scopes: Map<Seq<char>, VisibilityView>,
    s: SymbolView,
    m: int,
) -> Seq<(Seq<char>, Seq<char>)>
    decreases m,
{
    if m <= 0 {
        Seq::empty()
    } else {
        let prev = pairs_of(e, scopes, s, m - 1);
        match inherit_target(e, scopes, s.supertypes[m - 1], outer_of(s.qualified_name)) {
            Some(r) => prev.push((s.qualified_name, r)),
            None => prev,
        }
    }
}

/// The inheritance pairs of the first `n` entries, in order.
pub open spec fn inherit_pairs(e: Seq<Entry>, scopes: Map<Seq<char>, VisibilityView>, n: int) -> Seq<(Seq<char>, Seq<char>)>
    decreases n,
{
    if n <= 0 {
        Seq::empty()
    } else {
        inherit_pairs(e, scopes, n - 1) + pairs_of(e, scopes, e[n - 1].1, e[n - 1].1.supertypes.len() as int)
    }
}

/// The views of a list of string pairs.
pub open spec fn pairs_view(p: Seq<(String, String)>) -> Seq<(Seq<char>, Seq<char>)> {
    Seq::new(p.len(), |k: int| (p[k].0@, p[k].1@))
}

/// Every map keeps its scope and its direct entries, and stays well formed.
pub open spec fn direct_kept(a: Seq<ScopeVisibility>, b: Seq<ScopeVisibility>) -> bool {
    &&& a.len() == b.len()
    &&& forall|k: int|
        0 <= k < a.len() ==> (#[trigger] b[k])@.scope == a[k]@.scope && b[k].wf()
            && a[k]@.direct.submap_of(b[k]@.direct)
}

/// Every map keeps its scope and exactly its direct entries, and stays well
/// formed.
pub open spec fn direct_same(a: Seq<ScopeVisibility>, b: Seq<ScopeVisibility>) -> bool {
    &&& a.len() == b.len()
    &&& forall|k: int|
        0 <= k < a.len() ==> (#[trigger] b[k])@.scope == a[k]@.scope && b[k].wf() && a[k]@.direct
            == b[k]@.direct
}

/// Whether every map of a table is well formed.
pub open spec fn table_wf(t: Seq<ScopeVisibility>) -> bool {
    forall|k: int| 0 <= k < t.len() ==> (#[trigger] t[k]).wf()
}

/// `name` with every trailing `::*` taken off.
pub open spec fn trim_wildcards(s: Seq<char>) -> Seq<char>
    decreases s.len(),
{
    if s.len() >= 3 && s.subrange(s.len() - 3, s.len() as int) == seq![':', ':', '*'] {
        trim_wildcards(s.subrange(0, s.len() - 3))
    } else {
        s
    }
}

/// Whether a name ends in `::*`.
pub open spec fn is_wildcard(s: Seq<char>) -> bool {
    s.len() >= 3 && s.subrange(s.len() - 3, s.len() as int) == seq![':', ':', '*']
}

fn ends_with_wildcard(s: &Vec<char>) -> (r: bool)
    ensures
        r == is_wildcard(s@),
{
    let n = s.len();
    if n < 3 {
        return false;
    }
    let r = s[n - 3] == ':' && s[n - 2] == ':' && s[n - 1] == '*';
    assert(r == (s@.subrange(n - 3, n as int) =~= seq![':', ':', '*']));
    r
}

/// Takes every trailing `::*` off a name.
fn trim_wildcards_exec(s: &str) -> (r: String)
    ensures
        r@ == trim_wildcards(s@),
{
    let mut c = chars_of(s);
    let ghost orig = s@;
    let mut n = c.len();
    while n >= 3 && c[n - 3] == ':' && c[n - 2] == ':' && c[n - 1] == '*'
        invariant
            n == c@.len(),
            n <= orig.len(),
            c@ == orig.subrange(0, n as int),
            trim_wildcards(orig) == trim_wildcards(c@),
        decreases n,
    {
        assert(c@.subrange(n - 3, n as int) =~= seq![':', ':', '*']);
        c.truncate(n - 3);
        assert(c@ =~= orig.subrange(0, n - 3));
        n = n - 3;
    }
    if n >= 3 {
        assert(!(c@.subrange(n - 3, n as int) =~= seq![':', ':', '*']) ==> c@.subrange(n - 3, n as int) != seq![':', ':', '*']);
    }
    slice_of(s, 0, n)
}

/// Adds `s` to a list of distinct strings unless it is there.
fn push_unique(v: &mut Vec<String>, s: String)
    requires
        strings_view(old(v)@).no_duplicates(),
    ensures
        strings_view(final(v)@) == add_new(strings_view(old(v)@), s@),
        strings_view(final(v)@).no_duplicates(),
        strings_view(final(v)@).contains(s@),
        forall|x: Seq<char>| strings_view(final(v)@).contains(x) ==> x == s@ || strings_view(old(v)@).contains(x),
        forall|x: Seq<char>| strings_view(old(v)@).contains(x) ==> strings_view(final(v)@).contains(x),
{
    let mut i: usize = 0;
    while i < v.len()
        invariant
            *v == *old(v),
            strings_view(v@).no_duplicates(),
            i <= v@.len(),
            forall|j: int| 0 <= j < i ==> v@[j]@ != s@,
        decreases v@.len() - i,
    {
        if same_text(v[i].as_str(), s.as_str()) {
            assert(strings_view(v@)[i as int] == s@);
            assert(strings_view(v@).contains(s@));
            return;
        }
        i = i + 1;
    }
    let ghost before = v@;
    v.push(s);
    proof {
        assert(strings_view(v@) =~= strings_view(before).push(s@));
        assert forall|x: Seq<char>| strings_view(v@).contains(x) implies x == s@ || strings_view(before).contains(x) by {
            let j = choose|j: int| 0 <= j < strings_view(v@).len() && strings_view(v@)[j] == x;
            if j < before.len() {
                assert(strings_view(before)[j] == x);
            }
        }
        assert forall|x: Seq<char>| strings_view(before).contains(x) implies strings_view(v@).contains(x) by {
            let j = choose|j: int| 0 <= j < strings_view(before).len() && strings_view(before)[j] == x;
            assert(strings_view(v@)[j] == x);
        }
        assert(strings_view(v@)[before.len() as int] == s@);
    }
}

/// The position of the map of `scope` in a table.
fn table_position(t: &Vec<ScopeVisibility>, scope: &str) -> (r: Option<usize>)
    ensures
        match r {
            Some(k) => k < t@.len() && t@[k as int]@.scope == scope@,
            None => forall|k: int| 0 <= k < t@.len() ==> t@[k]@.scope != scope@,
        },
{
    let mut i: usize = 0;
    while i < t.len()
        invariant
            i <= t@.len(),
            forall|k: int| 0 <= k < i ==> t@[k]@.scope != scope@,
        decreases t@.len() - i,
    {
        if same_text(t[i].scope(), scope) {
            return Some(i);
        }
        i = i + 1;
    }
    None
}

/// A copy of a list of (name, qualified name) pairs.
fn copy_pairs(v: &[(String, String)]) -> (r: Vec<(String, String)>)
    ensures
        r@.len() == v@.len(),
        forall|k: int| 0 <= k < v@.len() ==> r@[k].0@ == v@[k].0@ && r@[k].1@ == v@[k].1@,
        table_map(r@) == table_map(v@),
        keys_unique(v@) ==> keys_unique(r@),
{
    let mut r: Vec<(String, String)> = Vec::new();
    let mut i: usize = 0;
    while i < v.len()
        invariant
            i <= v@.len(),
            r@.len() == i,
            forall|k: int| 0 <= k < i ==> r@[k].0@ == v@[k].0@ && r@[k].1@ == v@[k].1@,
        decreases v@.len() - i,
    {
        r.push((v[i].0.clone(), v[i].1.clone()));
        i = i + 1;
    }
    proof {
        lemma_table_map_same(r@, v@);
    }
    r
}

/// Association lists with the same keys and values stand for the same map.
proof fn lemma_table_map_same(a: Seq<(String, String)>, b: Seq<(String, String)>)
    requires
        a.len() == b.len(),
        forall|k: int| 0 <= k < a.len() ==> a[k].0@ == b[k].0@ && a[k].1@ == b[k].1@,
    ensures
        table_map(a) == table_map(b),
    decreases a.len(),
{
    if a.len() > 0 {
        lemma_table_map_same(a.drop_last(), b.drop_last());
    }
}

/// In a table of maps with distinct scopes, the map at `k` is the one
/// position of its scope.
proof fn lemma_position_public(t: Seq<ScopeVisibility>, s: Seq<char>, k: int)
    requires
        scopes_unique(t),
        0 <= k < t.len(),
        t[k]@.scope == s,
    ensures
        position_in(direct_table(t), s) == Some(k),
{
    lemma_position(t, s);
}

/// In a table of maps with distinct scopes, the position of a scope is the
/// one map that has it.
proof fn lemma_position(t: Seq<ScopeVisibility>, s: Seq<char>)
    requires
        scopes_unique(t),
    ensures
        forall|k: int| 0 <= k < t.len() && t[k]@.scope == s ==> position_in(direct_table(t), s) == Some(k),
        (forall|k: int| 0 <= k < t.len() ==> t[k]@.scope != s) ==> position_in(direct_table(t), s) is None,
{
    let d = direct_table(t);
    assert forall|k: int| 0 <= k < t.len() && t[k]@.scope == s implies position_in(d, s) == Some(k) by {
        assert(d[k].0 == s);
        let c = choose|c: int| 0 <= c < d.len() && d[c].0 == s;
        assert(t[c]@.scope == s);
        if c != k {
            if c < k {
                assert(t[c]@.scope != t[k]@.scope);
            } else {
                assert(t[k]@.scope != t[c]@.scope);
            }
        }
    }
    if forall|k: int| 0 <= k < t.len() ==> t[k]@.scope != s {
        assert(!exists|k: int| 0 <= k < d.len() && d[k].0 == s);
    }
}

impl SymbolIndex {
    /// Every scope of the entries other than the root: the parent of each
    /// symbol and each namespace-opening symbol, without repetition.
    fn collect_all_scopes(&self) -> (r: Vec<String>)
        requires
            self.wf(),
        ensures
            strings_view(r@) == scopes_upto(self@.entries, self@.entries.len() as int),
            strings_view(r@).no_duplicates(),
            forall|x: Seq<char>| strings_view(r@).contains(x) ==> is_scope(self@.entries, x),
            forall|i: int|
                0 <= i < self@.entries.len() ==> (parent_of(#[trigger] self@.entries[i].1.qualified_name) matches Some(
                    p,
                ) ==> strings_view(r@).contains(p)),
            forall|i: int|
                0 <= i < self@.entries.len() && opens_scope(#[trigger] self@.entries[i].1)
                    ==> strings_view(r@).contains(self@.entries[i].1.qualified_name),
    {
        let ghost e = self@.entries;
        proof {
            self.reveal_wf();
        }
        let mut scopes: Vec<String> = Vec::new();
        let mut i: usize = 0;
        while i < self.symbols.len()
            invariant
                self.wf(),
                e == self@.entries,
                e.len() == self.symbols@.len(),
                i <= e.len(),
                strings_view(scopes@) == scopes_upto(e, i as int),
                strings_view(scopes@).no_duplicates(),
                forall|x: Seq<char>| strings_view(scopes@).contains(x) ==> is_scope(e, x),
                forall|j: int|
                    0 <= j < i ==> (parent_of(#[trigger] e[j].1.qualified_name) matches Some(p)
                        ==> strings_view(scopes@).contains(p)),
                forall|j: int|
                    0 <= j < i && opens_scope(#[trigger] e[j].1) ==> strings_view(scopes@).contains(
                        e[j].1.qualified_name,
                    ),
            decreases e.len() - i,
        {
            proof {
                self.lemma_entry_view(i as int);
            }
            let sym = &self.symbols[i];
            match parent_scope(sym.qualified_name.as_str()) {
                Some(p) => {
                    proof {
                        assert(is_scope(e, p@)) by {
                            if p@.len() > 0 {
                                assert(parent_of(e[i as int].1.qualified_name) == Some(p@));
                            }
                        }
                    }
                    push_unique(&mut scopes, p);
                },
                None => {},
            }
            if sym.kind == SymbolKind::Package || sym.kind.is_definition() {
                proof {
                    assert(is_scope(e, sym.qualified_name@)) by {
                        if sym.qualified_name@.len() > 0 {
                            assert(opens_scope(e[i as int].1) && e[i as int].1.qualified_name
                                == sym.qualified_name@);
                        }
                    }
                }
                push_unique(&mut scopes, sym.qualified_name.clone());
            }
            i = i + 1;
        }
        scopes
    }

    proof fn lemma_entry_view(&self, i: int)
        requires
            self.wf(),
            0 <= i < self.symbols@.len(),
        ensures
            self@.entries[i].1 == self.symbols@[i]@,
            self@.entries.len() == self.symbols@.len(),
    {
        self.lemma_entry_parts(i);
    }

    /// Adds the direct members of `scope` to `vis`, in the order added, each
    /// under its simple name and its short name.
    fn collect_direct_defs(&self, vis: &mut ScopeVisibility, scope: &str)
        requires
            self.wf(),
            old(vis).wf(),
            old(vis)@.direct == Map::<Seq<char>, Seq<char>>::empty(),
        ensures
            final(vis).wf(),
            final(vis)@.direct == declared(self@.entries, scope@, self@.entries.len() as int),
            final(vis)@.imports == old(vis)@.imports,
            final(vis)@.reexports == old(vis)@.reexports,
            final(vis)@.scope == old(vis)@.scope,
    {
        let ghost e = self@.entries;
        proof {
            self.reveal_wf();
        }
        let mut i: usize = 0;
        while i < self.symbols.len()
            invariant
                self.wf(),
                e == self@.entries,
                e.len() == self.symbols@.len(),
                i <= e.len(),
                vis.wf(),
                vis@.direct == declared(e, scope@, i as int),
                vis@.imports == old(vis)@.imports,
                vis@.reexports == old(vis)@.reexports,
                vis@.scope == old(vis)@.scope,
            decreases e.len() - i,
        {
            proof {
                self.lemma_entry_view(i as int);
            }
            let sym = &self.symbols[i];
            let member = match parent_scope(sym.qualified_name.as_str()) {
                Some(p) => same_text(p.as_str(), scope),
                None => scope.unicode_len() == 0,
            };
            if member {
                vis.add_direct(sym.name.clone(), sym.qualified_name.clone());
                match &sym.short_name {
                    Some(sh) => vis.add_direct(sh.clone(), sym.qualified_name.clone()),
                    None => {},
                }
            }
            i = i + 1;
        }
    }

    /// Resolves a supertype name for inheritance, without the resolver: an
    /// exact qualified name first, then outward from `starting_scope`, at each
    /// level `scope::name` and then the scope's direct entries.
    fn resolve_supertype_for_inheritance(&self, name: &str, starting_scope: &str) -> (r: Option<String>)
        requires
            self.wf(),
        ensures
            opt_view(r) == inherit_target(self@.entries, self@.scopes, name@, starting_scope@),
    {
        match self.lookup_qualified(name) {
            Some(sym) => {
                proof {
                    crate::index::lemma_qualified_lookup(self@, name@);
                }
                return Some(sym.qualified_name.clone());
            },
            None => {},
        }
        let mut current = starting_scope.to_owned();
        loop
            invariant
                self.wf(),
                qualified_lookup(self@, name@) is None,
                inherit_target(self@.entries, self@.scopes, name@, starting_scope@) == inherit_walk(self@.entries, self@.scopes, name@, current@),
            decreases current@.len(),
        {
            let qname = join_names_in(current.as_str(), name);
            match self.lookup_qualified(qname.as_str()) {
                Some(sym) => {
                    return Some(sym.qualified_name.clone());
                },
                None => {},
            }
            match self.visibility_for_scope(current.as_str()) {
                Some(vis) => match vis.lookup_direct(name) {
                    Some(q) => {
                        return Some(q.clone());
                    },
                    None => {},
                },
                None => {},
            }
            if current.unicode_len() == 0 {
                return None;
            }
            proof {
                lemma_outer_shorter(current@);
            }
            current = outer_scope(current.as_str());
        }
    }

    /// Copies the direct entries of each resolved supertype into the scope
    /// of the symbol that specializes it, where that scope has no entry of
    /// the same name: local members always win over inherited ones.
    fn propagate_inherited_members(&mut self)
        requires
            old(self).wf(),
        ensures
            final(self).wf(),
            final(self).symbols == old(self).symbols,
            final(self).owners == old(self).owners,
            final(self).files == old(self).files,
            final(self).visibility_dirty == old(self).visibility_dirty,
            direct_kept(old(self).visibility_map@, final(self).visibility_map@),
            forall|k: int| 0 <= k < old(self).visibility_map@.len() ==>
                (#[trigger] final(self).visibility_map@[k])@.imports == old(self).visibility_map@[k]@.imports,
            forall|k: int| 0 <= k < old(self).visibility_map@.len() ==>
                (#[trigger] final(self).visibility_map@[k])@.reexports == old(self).visibility_map@[k]@.reexports,
            direct_table(final(self).visibility_map@) == inherit_all(
                direct_table(old(self).visibility_map@),
                inherit_pairs(old(self)@.entries, old(self)@.scopes, old(self)@.entries.len() as int),
                inherit_pairs(old(self)@.entries, old(self)@.scopes, old(self)@.entries.len() as int).len() as int,
            ),
    {
        let ghost v = self@;
        proof {
            self.reveal_wf();
        }
        let mut pairs: Vec<(String, String)> = Vec::new();
        let mut i: usize = 0;
        while i < self.symbols.len()
            invariant
                self.wf(),
                *self == *old(self),
                v == old(self)@,
                v.entries.len() == self.symbols@.len(),
                i <= self.symbols@.len(),
                pairs_view(pairs@) == inherit_pairs(v.entries, v.scopes, i as int),
            decreases self.symbols@.len() - i,
        {
            proof {
                self.lemma_entry_parts(i as int);
            }
            let sym = &self.symbols[i];
            let parent = outer_scope(sym.qualified_name.as_str());
            let mut j: usize = 0;
            while j < sym.supertypes.len()
                invariant
                    self.wf(),
                    *self == *old(self),
                    v == old(self)@,
                    i < self.symbols@.len(),
                    *sym == self.symbols@[i as int],
                    parent@ == outer_of(sym@.qualified_name),
                    j <= sym.supertypes@.len(),
                    pairs_view(pairs@) == inherit_pairs(v.entries, v.scopes, i as int) + pairs_of(v.entries, v.scopes, sym@, j as int),
                decreases sym.supertypes@.len() - j,
            {
                assert(sym@.supertypes[j as int] == sym.supertypes@[j as int]@);
                let ghost prev = pairs@;
                match self.resolve_supertype_for_inheritance(sym.supertypes[j].as_str(), parent.as_str()) {
                    Some(resolved) => {
                        pairs.push((sym.qualified_name.clone(), resolved));
                        assert(pairs_view(pairs@) =~= pairs_view(prev).push((sym@.qualified_name, resolved@)));
                    },
                    None => {},
                }
                assert(inherit_pairs(v.entries, v.scopes, i as int) + pairs_of(v.entries, v.scopes, sym@, j + 1) =~= pairs_view(pairs@));
                j = j + 1;
            }
            assert(v.entries[i as int].1 == sym@);
            i = i + 1;
        }
        let ghost all_pairs = pairs_view(pairs@);
        let ghost before = self.visibility_map@;
        proof {
            self.reveal_wf();
        }
        let mut k: usize = 0;
        while k < pairs.len()
            invariant
                self.wf(),
                self.symbols == old(self).symbols,
                self.owners == old(self).owners,
                self.files == old(self).files,
                self.visibility_dirty == old(self).visibility_dirty,
                before == old(self).visibility_map@,
                direct_kept(before, self.visibility_map@),
                forall|m: int| 0 <= m < before.len() ==>
                    (#[trigger] self.visibility_map@[m])@.imports == before[m]@.imports,
                forall|m: int| 0 <= m < before.len() ==>
                    (#[trigger] self.visibility_map@[m])@.reexports == before[m]@.reexports,
                k <= pairs@.len(),
                all_pairs == pairs_view(pairs@),
                all_pairs == inherit_pairs(v.entries, v.scopes, v.entries.len() as int),
                direct_table(self.visibility_map@) == inherit_all(direct_table(before), all_pairs, k as int),
            decreases pairs@.len() - k,
        {
            proof {
                self.reveal_wf();
                lemma_position(self.visibility_map@, pairs@[k as int].0@);
                lemma_position(self.visibility_map@, pairs@[k as int].1@);
            }
            let ghost d = direct_table(self.visibility_map@);
            let ghost parent_direct = match position_in(d, pairs@[k as int].1@) {
                Some(p) => d[p].1,
                None => Map::<Seq<char>, Seq<char>>::empty(),
            };
            let members: Vec<(String, String)> = match table_position(&self.visibility_map, pairs[k].1.as_str()) {
                Some(pos) => copy_pairs(self.visibility_map[pos].direct_defs()),
                None => {
                    let e: Vec<(String, String)> = Vec::new();
                    assert(table_map(e@) == Map::<Seq<char>, Seq<char>>::empty());
                    e
                },
            };
            assert(table_map(members@) == parent_direct);
            assert(keys_unique(members@));
            match table_position(&self.visibility_map, pairs[k].0.as_str()) {
                Some(pos) => {
                    proof {
                        self.reveal_wf();
                    }
                    let mut vis = ScopeVisibility::new("");
                    let ghost mid = self.visibility_map@;
                    std::mem::swap(&mut vis, &mut self.visibility_map[pos]);
                    let ghost taken = vis@;
                    let mut m: usize = 0;
                    while m < members.len()
                        invariant
                            vis.wf(),
                            vis@.scope == taken.scope,
                            vis@.imports == taken.imports,
                            vis@.reexports == taken.reexports,
                            taken.direct.submap_of(vis@.direct),
                            m <= members@.len(),
                            keys_unique(members@),
                            vis@.direct == table_map(members@.subrange(0, m as int)).union_prefer_right(taken.direct),
                        decreases members@.len() - m,
                    {
                        let ghost sub = members@.subrange(0, m as int);
                        let ghost key = members@[m as int].0@;
                        let ghost val = members@[m as int].1@;
                        proof {
                            assert(members@.subrange(0, m + 1).drop_last() =~= sub);
                            assert(keys_unique(sub));
                            lemma_table_map(sub);
                            assert(!table_map(sub).contains_key(key)) by {
                                if table_map(sub).contains_key(key) {
                                    let x = choose|x: int| 0 <= x < sub.len() && sub[x].0@ == key;
                                    assert(members@[x].0@ != members@[m as int].0@);
                                }
                            }
                        }
                        if vis.lookup_direct(members[m].0.as_str()).is_none() {
                            vis.add_direct(members[m].0.clone(), members[m].1.clone());
                            proof {
                                assert(vis@.direct =~= table_map(members@.subrange(0, m + 1)).union_prefer_right(taken.direct));
                            }
                        } else {
                            proof {
                                assert(taken.direct.contains_key(key));
                                assert(vis@.direct =~= table_map(members@.subrange(0, m + 1)).union_prefer_right(taken.direct));
                            }
                        }
                        m = m + 1;
                    }
                    proof {
                        assert(members@.subrange(0, members@.len() as int) =~= members@);
                    }
                    self.visibility_map.set(pos, vis);
                    proof {
                        assert forall|x: int| 0 <= x < self.visibility_map@.len() implies (#[trigger] self.visibility_map@[x]).wf() by {
                            if x != pos {
                                assert(self.visibility_map@[x] == mid[x]);
                            }
                        }
                        assert(scopes_unique(self.visibility_map@)) by {
                            assert forall|a: int, b: int| 0 <= a < b < self.visibility_map@.len() implies self.visibility_map@[a]@.scope != self.visibility_map@[b]@.scope by {
                                assert(self.visibility_map@[a]@.scope == mid[a]@.scope);
                                assert(self.visibility_map@[b]@.scope == mid[b]@.scope);
                            }
                        }
                        assert forall|x: int| 0 <= x < before.len() implies (#[trigger] self.visibility_map@[x])@.scope == before[x]@.scope && self.visibility_map@[x].wf() && before[x]@.direct.submap_of(self.visibility_map@[x]@.direct) by {
                            assert(before[x]@.direct.submap_of(mid[x]@.direct));
                            if x == pos {
                                assert(mid[x]@ == taken);
                                assert(self.visibility_map@[x] == vis);
                                assert forall|key: Seq<char>| #[trigger] before[x]@.direct.contains_key(key) implies vis@.direct.contains_key(key) && vis@.direct[key] == before[x]@.direct[key] by {
                                    assert(taken.direct.contains_key(key));
                                    assert(taken.direct[key] == before[x]@.direct[key]);
                                    assert(vis@.direct.contains_key(key));
                                    assert(vis@.direct[key] == taken.direct[key]);
                                }
                            } else {
                                assert(self.visibility_map@[x] == mid[x]);
                            }
                        }
                        assert forall|x: int| 0 <= x < before.len() implies (#[trigger] self.visibility_map@[x])@.imports == before[x]@.imports by {
                            if x == pos {
                                assert(mid[x]@ == taken);
                            } else {
                                assert(self.visibility_map@[x] == mid[x]);
                            }
                        }
                        assert forall|x: int| 0 <= x < before.len() implies (#[trigger] self.visibility_map@[x])@.reexports == before[x]@.reexports by {
                            if x == pos {
                                assert(mid[x]@ == taken);
                            } else {
                                assert(self.visibility_map@[x] == mid[x]);
                            }
                        }
                        self.establish_wf();
                        assert(position_in(d, pairs@[k as int].0@) == Some(pos as int));
                        assert(d[pos as int].1 == taken.direct);
                        assert(direct_table(self.visibility_map@) =~= inherit_step(d, all_pairs[k as int].0, all_pairs[k as int].1));
                    }
                },
                None => {
                    assert(position_in(d, pairs@[k as int].0@) is None);
                    assert(inherit_step(d, all_pairs[k as int].0, all_pairs[k as int].1) == d);
                },
            }
            k = k + 1;
        }
    }

    /// The number of import declarations.
    fn import_count(&self) -> (r: usize)
        requires
            self.wf(),
        ensures
            r <= self.symbols@.len(),
            r == count_imports(self@.entries, self@.entries.len() as int),
    {
        proof {
            self.reveal_wf();
        }
        let mut n: usize = 0;
        let mut i: usize = 0;
        while i < self.symbols.len()
            invariant
                self.wf(),
                self@.entries.len() == self.symbols@.len(),
                n <= i <= self.symbols@.len(),
                n == count_imports(self@.entries, i as int),
            decreases self.symbols@.len() - i,
        {
            proof {
                self.lemma_entry_parts(i as int);
            }
            if self.symbols[i].kind == SymbolKind::Import {
                n = n + 1;
            }
            i = i + 1;
        }
        n
    }

    /// Processes the imports declared in `scope`: a wildcard import first
    /// processes its target's own imports, then copies the target's direct
    /// and imported entries into this scope's imports (and records a public
    /// one as a re-export); a single-symbol import adds one entry under the
    /// last segment of its name. A (scope, target) pair is processed at most
    /// once, which stops circular imports. Each nested level takes a pair no
    /// level above has taken, and each pair belongs to one import
    /// declaration, so the depth never exceeds the number of imports and
    /// `depth` (one more than that) never runs out.
    fn process_imports_recursive(
        &self,
        table: &mut Vec<ScopeVisibility>,
        scope: &str,
        visited: &mut Vec<(String, String)>,
        depth: usize,
    )
        requires
            self.wf(),
            table_wf(old(table)@),
            scopes_unique(old(table)@),
            table_disjoint(old(table)@),
        ensures
            direct_same(old(table)@, final(table)@),
            scopes_unique(final(table)@),
            table_wf(final(table)@),
            table_disjoint(final(table)@),
            (views(final(table)@), pairs_view(final(visited)@)) == run_imports(
                self@.entries,
                views(old(table)@),
                scope@,
                pairs_view(old(visited)@),
                depth as nat,
            ),
        decreases depth,
    {
        if depth == 0 {
            return;
        }
        proof {
            self.reveal_wf();
        }
        let ghost start = table@;
        let ghost e = self@.entries;
        let ghost goal = run_imports(e, views(old(table)@), scope@, pairs_view(old(visited)@), depth as nat);
        let mut i: usize = 0;
        while i < self.symbols.len()
            invariant
                self.wf(),
                i <= self.symbols@.len(),
                direct_same(start, table@),
                scopes_unique(table@),
                table_wf(table@),
                table_disjoint(table@),
                start == old(table)@,
                depth > 0,
                e == self@.entries,
                e.len() == self.symbols@.len(),
                goal == run_imports(e, views(old(table)@), scope@, pairs_view(old(visited)@), depth as nat),
                goal == imports_loop(e, views(table@), scope@, i as int, pairs_view(visited@), depth as nat),
            decreases self.symbols@.len() - i,
        {
            proof {
                self.lemma_entry_parts(i as int);
            }
            let ghost t_before = views(table@);
            let ghost v_before = pairs_view(visited@);
            let sym = &self.symbols[i];
            let declared_here = match import_scope_of(sym.qualified_name.as_str()) {
                Some(p) => same_text(p.as_str(), scope),
                None => false,
            };
            if sym.kind == SymbolKind::Import && declared_here {
                let name_chars = chars_of(sym.name.as_str());
                let wildcard = ends_with_wildcard(&name_chars);
                let target = trim_wildcards_exec(sym.name.as_str());
                let resolved = resolve_import_target(table, scope, target.as_str());
                if wildcard {
                    let seen = pair_visited(visited, scope, resolved.as_str());
                    proof {
                        if seen {
                            let k = choose|k: int| 0 <= k < visited@.len() && visited@[k].0@ == scope@ && visited@[k].1@ == resolved@;
                            assert(pairs_view(visited@)[k] == (scope@, resolved@));
                        }
                        if v_before.contains((scope@, resolved@)) {
                            let k = choose|k: int| 0 <= k < v_before.len() && v_before[k] == (scope@, resolved@);
                            assert(visited@[k].0@ == scope@ && visited@[k].1@ == resolved@);
                        }
                    }
                    if !seen {
                        visited.push((scope.to_owned(), resolved.clone()));
                        proof {
                            assert(pairs_view(visited@) =~= v_before.push((scope@, resolved@)));
                        }
                        let ghost before_rec = table@;
                        self.process_imports_recursive(table, resolved.as_str(), visited, depth - 1);
                        proof {
                            lemma_direct_same_trans(start, before_rec, table@);
                            lemma_view_position(table@, resolved@);
                        }
                        match table_position(table, resolved.as_str()) {
                            Some(tp) => {
                                let direct = copy_pairs(table[tp].direct_defs());
                                let imported = copy_pairs(table[tp].imports());
                                let ghost before_add = table@;
                                add_imports_to(table, scope, &direct, &imported, sym.is_public, &resolved);
                                proof {
                                    lemma_direct_same_trans(start, before_add, table@);
                                    assert(views(before_add)[tp as int] == before_add[tp as int]@);
                                }
                            },
                            None => {},
                        }
                    }
                } else {
                    let simple = last_segment(resolved.as_str());
                    let none: Vec<(String, String)> = Vec::new();
                    let mut one: Vec<(String, String)> = Vec::new();
                    one.push((simple, resolved.clone()));
                    proof {
                        assert(one@.drop_last() =~= Seq::<(String, String)>::empty());
                        assert(table_map(one@.drop_last()) == Map::<Seq<char>, Seq<char>>::empty());
                        assert(one@.last().0@ == last_segment_of(resolved@));
                        assert(one@.last().1@ == resolved@);
                        assert(table_map(one@) == table_map(one@.drop_last()).insert(one@.last().0@, one@.last().1@));
                        assert(table_map(one@) =~= Map::<Seq<char>, Seq<char>>::empty().insert(last_segment_of(resolved@), resolved@));
                        assert(table_map(none@) =~= Map::<Seq<char>, Seq<char>>::empty());
                    }
                    let ghost before_add = table@;
                    add_imports_to(table, scope, &one, &none, false, &resolved);
                    proof {
                        lemma_direct_same_trans(start, before_add, table@);
                    }
                }
            }
            i = i + 1;
        }
    }

    /// Rebuilds every visibility map from the current entries.
    #[verifier::rlimit(100)]
    fn build_visibility_maps(&mut self)
        requires
            old(self).wf(),
        ensures
            final(self).wf(),
            final(self).symbols == old(self).symbols,
            final(self).owners == old(self).owners,
            final(self).files == old(self).files,
            final(self).visibility_dirty == old(self).visibility_dirty,
            maps_fresh(final(self)@),
    {
        let ghost e = self@.entries;
        let ghost snapshot = *self;
        let mut scopes = self.collect_all_scopes();
        let ghost found = strings_view(scopes@);
        push_unique(&mut scopes, String::new());
        proof {
            assert(is_scope(e, Seq::<char>::empty()));
        }
        let mut table: Vec<ScopeVisibility> = Vec::new();
        let mut k: usize = 0;
        while k < scopes.len()
            invariant
                self.wf(),
                e == self@.entries,
                k <= scopes@.len(),
                strings_view(scopes@).no_duplicates(),
                table@.len() == k,
                forall|m: int| 0 <= m < k ==> (#[trigger] table@[m])@.scope == scopes@[m]@,
                forall|m: int| 0 <= m < k ==> (#[trigger] table@[m]).wf(),
                forall|m: int| 0 <= m < k ==> (#[trigger] table@[m])@.direct == declared(e, scopes@[m]@, e.len() as int),
                forall|m: int| 0 <= m < k ==> (#[trigger] table@[m])@.imports == Map::<Seq<char>, Seq<char>>::empty(),
                forall|m: int| 0 <= m < k ==> (#[trigger] table@[m])@.reexports.len() == 0,
            decreases scopes@.len() - k,
        {
            let mut vis = ScopeVisibility::new(scopes[k].as_str());
            self.collect_direct_defs(&mut vis, scopes[k].as_str());
            table.push(vis);
            k = k + 1;
        }
        proof {
            assert(scopes_unique(table@)) by {
                assert forall|a: int, b: int| 0 <= a < b < table@.len() implies table@[a]@.scope != table@[b]@.scope by {
                    assert(strings_view(scopes@)[a] != strings_view(scopes@)[b]);
                }
            }
            self.reveal_wf();
        }
        let ghost built = table@;
        self.visibility_map = table;
        proof {
            self.establish_wf();
            self.reveal_view();
            snapshot.reveal_view();
            assert(self@.entries =~= e);
            lemma_scope_map(built);
            assert(scope_map(built) =~= declared_maps(e)) by {
                assert forall|x: Seq<char>| #[trigger] scope_map(built).contains_key(x) <==> declared_maps(e).contains_key(x) by {
                    if scope_map(built).contains_key(x) {
                        let m = choose|m: int| 0 <= m < built.len() && built[m]@.scope == x;
                        assert(strings_view(scopes@)[m] == x);
                        assert(strings_view(scopes@).contains(x));
                        if x.len() > 0 {
                            assert(x != Seq::<char>::empty());
                            assert(found.contains(x));
                        }
                    }
                    if is_scope(e, x) {
                        if x.len() == 0 {
                            assert(x =~= Seq::<char>::empty());
                            assert(strings_view(scopes@).contains(x));
                        } else {
                            let i = choose|i: int| 0 <= i < e.len() && (parent_of(e[i].1.qualified_name) == Some(x) || (opens_scope(e[i].1) && e[i].1.qualified_name == x));
                            assert(found.contains(x)) by {
                                if parent_of(e[i].1.qualified_name) == Some(x) {
                                    assert(parent_of(e[i].1.qualified_name) matches Some(p) ==> found.contains(p));
                                } else {
                                    assert(opens_scope(e[i].1));
                                }
                            }
                            assert(strings_view(scopes@).contains(x));
                        }
                        let m = choose|m: int| 0 <= m < strings_view(scopes@).len() && strings_view(scopes@)[m] == x;
                        assert(built[m]@.scope == x);
                    }
                }
                assert forall|x: Seq<char>| #[trigger] scope_map(built).contains_key(x) implies scope_map(built)[x] == declared_maps(e)[x] by {
                    let m = choose|m: int| 0 <= m < built.len() && built[m]@.scope == x;
                    assert(built[m]@.reexports =~= Seq::<Seq<char>>::empty());
                    assert(scope_map(built)[x] == built[m]@);
                }
            }
            assert(self@.scopes == declared_maps(e));
        }
        self.propagate_inherited_members();
        let ghost propagated = self.visibility_map@;
        let ghost inherited = self.visibility_map@;
        assert(table_disjoint(inherited)) by {
            assert forall|m: int| 0 <= m < inherited.len() implies disjoint(#[trigger] inherited[m]@) by {
                assert(inherited[m]@.imports == built[m]@.imports);
                assert(built[m]@.imports == Map::<Seq<char>, Seq<char>>::empty());
            }
        }
        let mut table: Vec<ScopeVisibility> = Vec::new();
        std::mem::swap(&mut table, &mut self.visibility_map);
        proof {
            self.establish_wf();
            self.reveal_view();
            snapshot.reveal_view();
            assert(self@.entries =~= e);
        }
        let count = self.import_count();
        let depth = if count < usize::MAX {
            count + 1
        } else {
            count
        };
        let mut visited: Vec<(String, String)> = Vec::new();
        let ghost t1 = views(table@);
        proof {
            assert(pairs_view(visited@) =~= Seq::<(Seq<char>, Seq<char>)>::empty());
        }
        let mut k: usize = 0;
        while k < table.len()
            invariant
                self.wf(),
                depth as nat == step_bound(count_imports(e, e.len() as int)),
                e == self@.entries,
                table@.len() == t1.len(),
                imports_all(e, t1, 0, Seq::empty(), depth as nat) == imports_all(e, views(table@), k as int, pairs_view(visited@), depth as nat),
                self.visibility_map@.len() == 0,
                self.symbols == old(self).symbols,
                self.owners == old(self).owners,
                self.files == old(self).files,
                self.visibility_dirty == old(self).visibility_dirty,
                direct_same(inherited, table@),
                scopes_unique(table@),
                table_wf(table@),
                table_disjoint(table@),
            decreases table@.len() - k,
        {
            let scope = table[k].scope().to_owned();
            let ghost before = table@;
            let ghost vb = pairs_view(visited@);
            proof {
                assert(views(before)[k as int].scope == scope@);
            }
            self.process_imports_recursive(&mut table, scope.as_str(), &mut visited, depth);
            proof {
                lemma_direct_same_trans(inherited, before, table@);
                assert(views(table@).len() == views(before).len());
            }
            k = k + 1;
        }
        self.visibility_map = table;
        proof {
            self.establish_wf();
            self.reveal_view();
            snapshot.reveal_view();
            assert(self@.entries =~= e);
            lemma_scope_map(self.visibility_map@);
            let t = self.visibility_map@;
            assert forall|s: Seq<char>| #[trigger] self@.scopes.contains_key(s) <==> is_scope(e, s) by {
                if self@.scopes.contains_key(s) {
                    let m = choose|m: int| 0 <= m < t.len() && t[m]@.scope == s;
                    assert(strings_view(scopes@)[m] == s);
                    assert(strings_view(scopes@).contains(s));
                    if s.len() > 0 {
                        assert(s != Seq::<char>::empty());
                        assert(found.contains(s));
                    }
                }
                if is_scope(e, s) {
                    if s.len() == 0 {
                        assert(s =~= Seq::<char>::empty());
                        assert(strings_view(scopes@).contains(s));
                    } else {
                        let i = choose|i: int| 0 <= i < e.len() && (parent_of(e[i].1.qualified_name) == Some(s) || (opens_scope(e[i].1) && e[i].1.qualified_name == s));
                        assert(found.contains(s)) by {
                            if parent_of(e[i].1.qualified_name) == Some(s) {
                                assert(parent_of(e[i].1.qualified_name) matches Some(p) ==> found.contains(p));
                            } else {
                                assert(opens_scope(e[i].1));
                            }
                        }
                        assert(strings_view(scopes@).contains(s));
                    }
                    let m = choose|m: int| 0 <= m < strings_view(scopes@).len() && strings_view(scopes@)[m] == s;
                    assert(t[m]@.scope == s);
                }
            }
            let d0 = direct_table(built);
            assert(strings_view(scopes@) == scope_order(e));
            assert(d0 =~= ordered_declared(e)) by {
                assert forall|m: int| 0 <= m < d0.len() implies d0[m] == ordered_declared(e)[m] by {
                    assert(strings_view(scopes@)[m] == scopes@[m]@);
                }
            }
            let pairs = inherit_pairs(e, declared_maps(e), e.len() as int);
            assert(direct_table(t) =~= direct_table(propagated)) by {
                assert forall|m: int| 0 <= m < t.len() implies direct_table(t)[m] == direct_table(propagated)[m] by {
                    assert(t[m]@.scope == inherited[m]@.scope);
                }
            }
            assert(lists_declared(e, d0)) by {
                assert forall|k: int| 0 <= k < d0.len() implies is_scope(e, #[trigger] d0[k].0) && d0[k].1 == declared(e, d0[k].0, e.len() as int) by {
                    assert(scope_map(built).contains_key(built[k]@.scope));
                }
                assert forall|x: Seq<char>| is_scope(e, x) implies exists|k: int| 0 <= k < d0.len() && #[trigger] d0[k].0 == x by {
                    assert(declared_maps(e).contains_key(x));
                    let m = choose|m: int| 0 <= m < built.len() && built[m]@.scope == x;
                    assert(d0[m].0 == x);
                }
                assert forall|a: int, b: int| 0 <= a < b < d0.len() implies d0[a].0 != d0[b].0 by {
                    assert(built[a]@.scope != built[b]@.scope);
                }
            }
            assert(directs_match(self@.scopes, inherit_all(d0, pairs, pairs.len() as int))) by {
                assert forall|x: Seq<char>| #[trigger] self@.scopes.contains_key(x) implies (position_in(direct_table(t), x) matches Some(p) && direct_table(t)[p].1 == self@.scopes[x].direct) by {
                    let m = choose|m: int| 0 <= m < t.len() && t[m]@.scope == x;
                    lemma_position_public(t, x, m);
                    assert(self@.scopes[x] == t[m]@);
                }
            }
            assert(directs_inherited(self@));
            assert(start_views(direct_table(propagated)) =~= views(inherited)) by {
                assert forall|m: int| 0 <= m < inherited.len() implies start_views(direct_table(propagated))[m] == views(inherited)[m] by {
                    assert(inherited[m]@.imports == built[m]@.imports);
                    assert(inherited[m]@.reexports == built[m]@.reexports);
                    assert(built[m]@.reexports =~= Seq::<Seq<char>>::empty());
                }
            }
            assert(imports_all(e, views(t), t.len() as int, pairs_view(visited@), depth as nat) == views(t));
            lemma_views_match(t, self@.scopes);
            assert(maps_built(self@));
            assert forall|s: Seq<char>| #[trigger] self@.scopes.contains_key(s) implies declared(e, s, e.len() as int).submap_of(self@.scopes[s].direct) && disjoint(self@.scopes[s]) by {
                let m = choose|m: int| 0 <= m < t.len() && t[m]@.scope == s;
                assert(built[m]@.direct == declared(e, s, e.len() as int));
                assert(built[m]@.direct.submap_of(inherited[m]@.direct));
                assert(inherited[m]@.direct == t[m]@.direct);
                assert(self@.scopes[s] == t[m]@);
                assert(disjoint(t[m]@));
            }
        }
    }

    /// Rebuilds the visibility maps if they are stale.
    pub fn ensure_visibility_maps(&mut self)
        requires
            old(self).wf(),
        ensures
            final(self).wf(),
            final(self)@.entries == old(self)@.entries,
            final(self)@.files == old(self)@.files,
            !final(self)@.dirty,
            old(self)@.dirty ==> maps_fresh(final(self)@),
            !old(self)@.dirty ==> final(self)@ == old(self)@,
    {
        if self.visibility_dirty {
            let ghost snapshot = *self;
            self.build_visibility_maps();
            let ghost built = *self;
            self.visibility_dirty = false;
            proof {
                snapshot.reveal_view();
                built.reveal_view();
                self.reveal_view();
                assert(self@.entries =~= snapshot@.entries);
                assert(self@.scopes == built@.scopes);
                assert(self@.entries == built@.entries);
                built.reveal_wf();
                self.establish_wf();
            }
        } else {
            proof {
                self.reveal_view();
            }
        }
    }
}

proof fn lemma_direct_same_trans(a: Seq<ScopeVisibility>, b: Seq<ScopeVisibility>, c: Seq<ScopeVisibility>)
    requires
        direct_same(a, b),
        direct_same(b, c),
    ensures
        direct_same(a, c),
{
    assert forall|k: int| 0 <= k < a.len() implies (#[trigger] c[k])@.scope == a[k]@.scope && c[k].wf() && a[k]@.direct == c[k]@.direct by {
        assert(b[k]@.scope == a[k]@.scope);
    }
}

/// `import:` as characters.
pub open spec fn import_head() -> Seq<char> {
    seq!['i', 'm', 'p', 'o', 'r', 't', ':']
}

/// The scope an import with qualified name `qn` is declared in.
pub open spec fn import_scope(qn: Seq<char>) -> Option<Seq<char>> {
    match crate::names::first_occurrence(qn, seq![':', ':'] + import_head()) {
        Some(i) => Some(qn.subrange(0, i)),
        None => if qn.len() >= 7 && qn.subrange(0, 7) == import_head() {
            Some(Seq::empty())
        } else {
            None
        },
    }
}

/// The last `::`-separated segment of a name.
pub open spec fn last_segment_of(s: Seq<char>) -> Seq<char> {
    match crate::names::last_occurrence(s, crate::names::sep()) {
        Some(i) => s.subrange(i + 2, s.len() as int),
        None => s,
    }
}

/// The scope an import is declared in: the part of its qualified name before
/// `::import:`, or the root for a name that starts with `import:`.
fn import_scope_of(qn: &str) -> (r: Option<String>)
    ensures
        crate::names::opt_view(r) == import_scope(qn@),
{
    let c = chars_of(qn);
    proof {
        reveal_strlit("::import:");
        reveal_strlit("import:");
    }
    let marker = chars_of("::import:");
    assert(marker@ =~= seq![':', ':'] + import_head());
    match find_in(&c, &marker) {
        Some(i) => {
            proof {
                crate::names::lemma_first_occurrence_bounds(c@, marker@, 0);
            }
            Some(slice_of(qn, 0, i))
        },
        None => {
            let head = chars_of("import:");
            assert(head@ =~= import_head());
            let n = head.len();
            if c.len() >= n {
                let mut k: usize = 0;
                while k < n
                    invariant
                        n == head@.len(),
                        head@ == import_head(),
                        c@ == qn@,
                        crate::names::first_occurrence(qn@, seq![':', ':'] + import_head()) is None,
                        n <= c@.len(),
                        k <= n,
                        forall|m: int| 0 <= m < k ==> c@[m] == head@[m],
                    decreases n - k,
                {
                    if c[k] != head[k] {
                        assert(c@.subrange(0, 7)[k as int] != import_head()[k as int]);
                        return None;
                    }
                    k = k + 1;
                }
                assert(c@.subrange(0, 7) =~= import_head());
                Some(String::new())
            } else {
                None
            }
        },
    }
}

/// Whether the pair (`scope`, `target`) has been processed.
fn pair_visited(visited: &Vec<(String, String)>, scope: &str, target: &str) -> (r: bool)
    ensures
        r == exists|k: int| 0 <= k < visited@.len() && visited@[k].0@ == scope@ && visited@[k].1@ == target@,
{
    let mut k: usize = 0;
    while k < visited.len()
        invariant
            k <= visited@.len(),
            forall|m: int| 0 <= m < k ==> !(visited@[m].0@ == scope@ && visited@[m].1@ == target@),
        decreases visited@.len() - k,
    {
        if same_text(visited[k].0.as_str(), scope) && same_text(visited[k].1.as_str(), target) {
            return true;
        }
        k = k + 1;
    }
    false
}

/// The last `::`-separated segment of a name.
fn last_segment(s: &str) -> (r: String)
    ensures
        r@ == last_segment_of(s@),
{
    let c = chars_of(s);
    let p = sep_chars();
    let n = c.len();
    match rfind_in(&c, &p) {
        Some(i) => {
            proof {
                crate::names::lemma_last_occurrence_bounds(c@, p@, c@.len() as int);
            }
            slice_of(s, i + 2, n)
        },
        None => s.to_owned(),
    }
}

/// The values of the maps of a table, in order.
pub open spec fn views(t: Seq<ScopeVisibility>) -> Seq<VisibilityView> {
    Seq::new(t.len(), |k: int| t[k]@)
}

/// The position of the map of `s` among map values.
pub open spec fn view_position(t: Seq<VisibilityView>, s: Seq<char>) -> Option<int> {
    if exists|k: int| 0 <= k < t.len() && t[k].scope == s {
        Some(choose|k: int| 0 <= k < t.len() && t[k].scope == s)
    } else {
        None
    }
}

/// The imported entries `imports` after each entry of `m` is imported,
/// except under a name among `direct`.
pub open spec fn imports_after(
    direct: Map<Seq<char>, Seq<char>>,
    imports: Map<Seq<char>, Seq<char>>,
    m: Map<Seq<char>, Seq<char>>,
) -> Map<Seq<char>, Seq<char>> {
    Map::new(
        |k: Seq<char>| imports.contains_key(k) || (m.contains_key(k) && !direct.contains_key(k)),
        |k: Seq<char>| if m.contains_key(k) && !direct.contains_key(k) {
            m[k]
        } else {
            imports[k]
        },
    )
}

/// A map after the entries of `first` and then of `second` are imported,
/// and, where `public`, `target` recorded as a re-export.
pub open spec fn with_imports(
    vis: VisibilityView,
    first: Map<Seq<char>, Seq<char>>,
    second: Map<Seq<char>, Seq<char>>,
    public: bool,
    target: Seq<char>,
) -> VisibilityView {
    VisibilityView {
        scope: vis.scope,
        direct: vis.direct,
        imports: imports_after(vis.direct, imports_after(vis.direct, vis.imports, first), second),
        reexports: if public && !vis.reexports.contains(target) {
            vis.reexports.push(target)
        } else {
            vis.reexports
        },
    }
}

/// A table after imports into the map of `scope`, where there is one.
pub open spec fn add_to(
    t: Seq<VisibilityView>,
    scope: Seq<char>,
    first: Map<Seq<char>, Seq<char>>,
    second: Map<Seq<char>, Seq<char>>,
    public: bool,
    target: Seq<char>,
) -> Seq<VisibilityView> {
    match view_position(t, scope) {
        Some(p) => t.update(p, with_imports(t[p], first, second, public, target)),
        None => t,
    }
}

/// The imports declared in `scope` processed, from the entry at `i` on:
/// the table of map values and the (scope, target) pairs processed after.
pub open spec fn imports_loop(
    e: Seq<Entry>,
    t: Seq<VisibilityView>,
    scope: Seq<char>,
    i: int,
    visited: Seq<(Seq<char>, Seq<char>)>,
    depth: nat,
) -> (Seq<VisibilityView>, Seq<(Seq<char>, Seq<char>)>)
    decreases depth, 0nat, e.len() - i,
{
    if i < 0 || i >= e.len() || depth == 0 {
        (t, visited)
    } else {
        let s = e[i].1;
        if s.kind == SymbolKind::Import && import_scope(s.qualified_name) == Some(scope) {
            let resolved = import_target(t, scope, trim_wildcards(s.name));
            if is_wildcard(s.name) {
                if visited.contains((scope, resolved)) {
                    imports_loop(e, t, scope, i + 1, visited, depth)
                } else {
                    let inner = run_imports(e, t, resolved, visited.push((scope, resolved)), (depth - 1) as nat);
                    let t2 = match view_position(inner.0, resolved) {
                        Some(tp) => add_to(inner.0, scope, inner.0[tp].direct, inner.0[tp].imports, s.is_public, resolved),
                        None => inner.0,
                    };
                    imports_loop(e, t2, scope, i + 1, inner.1, depth)
                }
            } else {
                let t2 = add_to(
                    t,
                    scope,
                    Map::<Seq<char>, Seq<char>>::empty().insert(last_segment_of(resolved), resolved),
                    Map::empty(),
                    false,
                    resolved,
                );
                imports_loop(e, t2, scope, i + 1, visited, depth)
            }
        } else {
            imports_loop(e, t, scope, i + 1, visited, depth)
        }
    }
}

/// The imports declared in `scope` processed, with `depth` levels of
/// nesting left.
pub open spec fn run_imports(
    e: Seq<Entry>,
    t: Seq<VisibilityView>,
    scope: Seq<char>,
    visited: Seq<(Seq<char>, Seq<char>)>,
    depth: nat,
) -> (Seq<VisibilityView>, Seq<(Seq<char>, Seq<char>)>)
    decreases depth, 1nat, 0nat,
{
    if depth == 0 {
        (t, visited)
    } else {
        imports_loop(e, t, scope, 0, visited, depth)
    }
}

/// The number of import declarations among the first `n` entries.
pub open spec fn count_imports(e: Seq<Entry>, n: int) -> nat
    decreases n,
{
    if n <= 0 {
        0
    } else {
        count_imports(e, n - 1) + if e[n - 1].1.kind == SymbolKind::Import {
            1nat
        } else {
            0nat
        }
    }
}

/// The imports of every scope processed, from the `k`-th map of the table
/// on, in table order.
pub open spec fn imports_all(
    e: Seq<Entry>,
    t: Seq<VisibilityView>,
    k: int,
    visited: Seq<(Seq<char>, Seq<char>)>,
    depth: nat,
) -> Seq<VisibilityView>
    decreases t.len() - k,
{
    if k < 0 || k >= t.len() {
        t
    } else {
        let r = run_imports(e, t, t[k].scope, visited, depth);
        if r.0.len() == t.len() {
            imports_all(e, r.0, k + 1, r.1, depth)
        } else {
            t
        }
    }
}

/// The maps before imports: each scope of `d` with its direct entries and
/// nothing imported.
pub open spec fn start_views(d: Seq<(Seq<char>, Map<Seq<char>, Seq<char>>)>) -> Seq<VisibilityView> {
    Seq::new(
        d.len(),
        |k: int|
            VisibilityView {
                scope: d[k].0,
                direct: d[k].1,
                imports: Map::empty(),
                reexports: Seq::empty(),
            },
    )
}

/// Whether a table has a map for `scope`.
pub open spec fn has_scope(t: Seq<VisibilityView>, scope: Seq<char>) -> bool {
    exists|k: int| 0 <= k < t.len() && t[k].scope == scope
}

/// `target` looked for as `scope::target` from `scope` out to the root; the
/// target as written where no such scope has a map.
pub open spec fn import_walk(t: Seq<VisibilityView>, scope: Seq<char>, target: Seq<char>) -> Seq<char>
    decreases scope.len(),
{
    if has_scope(t, join_in(scope, target)) {
        join_in(scope, target)
    } else if scope.len() == 0 {
        target
    } else if outer_of(scope).len() < scope.len() {
        import_walk(t, outer_of(scope), target)
    } else {
        target
    }
}

/// The scope an import of `target` declared in `scope` refers to.
pub open spec fn import_target(t: Seq<VisibilityView>, scope: Seq<char>, target: Seq<char>) -> Seq<char> {
    if crate::names::is_qualified(target) && has_scope(t, target) {
        target
    } else {
        import_walk(t, scope, target)
    }
}

/// Resolves an import target relative to `scope`: a qualified target that
/// names a scope as it stands, then `scope::target` for `scope` and each
/// enclosing scope out to the root, and else the target as written.
fn resolve_import_target(table: &Vec<ScopeVisibility>, scope: &str, target: &str) -> (r: String)
    ensures
        r@ == import_target(views(table@), scope@, target@),
{
    proof {
        lemma_has_scope(table@);
    }
    if is_qualified_exec(target) {
        if table_position(table, target).is_some() {
            return target.to_owned();
        }
    }
    let mut current = scope.to_owned();
    loop
        invariant
            import_target(views(table@), scope@, target@) == import_walk(views(table@), current@, target@),
            forall|x: Seq<char>| #[trigger] has_scope(views(table@), x) <==> exists|k: int| 0 <= k < table@.len() && table@[k]@.scope == x,
        decreases current@.len(),
    {
        let candidate = join_names_in(current.as_str(), target);
        if table_position(table, candidate.as_str()).is_some() {
            return candidate;
        }
        if current.unicode_len() == 0 {
            return target.to_owned();
        }
        proof {
            lemma_outer_shorter(current@);
        }
        current = outer_scope(current.as_str());
    }
}

/// Adds entries to the imports of the map of `scope`, if there is one: the
/// `first` list, then the `second`; with `public`, records `target` as a
/// re-export.
fn add_imports_to(
    table: &mut Vec<ScopeVisibility>,
    scope: &str,
    first: &Vec<(String, String)>,
    second: &Vec<(String, String)>,
    public: bool,
    target: &String,
)
    requires
        table_wf(old(table)@),
        scopes_unique(old(table)@),
        table_disjoint(old(table)@),
    ensures
        direct_same(old(table)@, final(table)@),
        scopes_unique(final(table)@),
        table_wf(final(table)@),
        table_disjoint(final(table)@),
        views(final(table)@) == add_to(views(old(table)@), scope@, table_map(first@), table_map(second@), public, target@),
{
    proof {
        lemma_view_position(table@, scope@);
    }
    match table_position(table, scope) {
        Some(pos) => {
            let ghost mid = table@;
            let mut vis = ScopeVisibility::new("");
            std::mem::swap(&mut vis, &mut table[pos]);
            let ghost taken = vis@;
            assert(disjoint(mid[pos as int]@));
            let mut m: usize = 0;
            while m < first.len()
                invariant
                    vis.wf(),
                    vis@.scope == taken.scope,
                    vis@.direct == taken.direct,
                    vis@.reexports == taken.reexports,
                    disjoint(vis@),
                    m <= first@.len(),
                    vis@.imports == imports_after(taken.direct, taken.imports, table_map(first@.subrange(0, m as int))),
                decreases first@.len() - m,
            {
                proof {
                    assert(first@.subrange(0, m + 1).drop_last() =~= first@.subrange(0, m as int));
                }
                vis.add_import(first[m].0.clone(), first[m].1.clone());
                proof {
                    assert(vis@.imports =~= imports_after(taken.direct, taken.imports, table_map(first@.subrange(0, m + 1))));
                }
                m = m + 1;
            }
            proof {
                assert(first@.subrange(0, first@.len() as int) =~= first@);
            }
            let ghost after_first = vis@.imports;
            let mut m: usize = 0;
            while m < second.len()
                invariant
                    vis.wf(),
                    vis@.scope == taken.scope,
                    vis@.direct == taken.direct,
                    vis@.reexports == taken.reexports,
                    disjoint(vis@),
                    m <= second@.len(),
                    vis@.imports == imports_after(taken.direct, after_first, table_map(second@.subrange(0, m as int))),
                decreases second@.len() - m,
            {
                proof {
                    assert(second@.subrange(0, m + 1).drop_last() =~= second@.subrange(0, m as int));
                }
                vis.add_import(second[m].0.clone(), second[m].1.clone());
                proof {
                    assert(vis@.imports =~= imports_after(taken.direct, after_first, table_map(second@.subrange(0, m + 1))));
                }
                m = m + 1;
            }
            proof {
                assert(second@.subrange(0, second@.len() as int) =~= second@);
                assert(vis@.imports == imports_after(taken.direct, imports_after(taken.direct, taken.imports, table_map(first@)), table_map(second@)));
            }
            if public {
                vis.add_public_reexport(target.clone());
            }
            table.set(pos, vis);
            proof {
                assert forall|k: int| 0 <= k < mid.len() implies (#[trigger] table@[k])@.scope == mid[k]@.scope && table@[k].wf() && mid[k]@.direct == table@[k]@.direct by {
                    if k != pos {
                        assert(table@[k] == mid[k]);
                    }
                }
                assert(scopes_unique(table@)) by {
                    assert forall|a: int, b: int| 0 <= a < b < table@.len() implies table@[a]@.scope != table@[b]@.scope by {
                        assert(table@[a]@.scope == mid[a]@.scope);
                        assert(table@[b]@.scope == mid[b]@.scope);
                    }
                }
                assert forall|k: int| 0 <= k < table@.len() implies disjoint(#[trigger] table@[k]@) by {
                    if k != pos {
                        assert(table@[k] == mid[k]);
                    }
                }
                assert(view_position(views(mid), scope@) == Some(pos as int));
                assert(taken == views(mid)[pos as int]);
                assert(vis@ =~= with_imports(taken, table_map(first@), table_map(second@), public, target@));
                assert(views(table@) =~= add_to(views(mid), scope@, table_map(first@), table_map(second@), public, target@));
            }
        },
        None => {
            assert(view_position(views(table@), scope@) is None);
        },
    }
}

/// The scope table of an index is the map values of its table, by scope.
proof fn lemma_views_match(t: Seq<ScopeVisibility>, scopes: Map<Seq<char>, VisibilityView>)
    requires
        scopes_unique(t),
        scopes == scope_map(t),
    ensures
        forall|s: Seq<char>| #[trigger] scopes.contains_key(s) ==> (view_position(views(t), s) matches Some(p) && views(t)[p] == scopes[s]),
{
    lemma_scope_map(t);
    lemma_view_position(t, Seq::empty());
    assert forall|s: Seq<char>| #[trigger] scopes.contains_key(s) implies (view_position(views(t), s) matches Some(p) && views(t)[p] == scopes[s]) by {
        let m = choose|m: int| 0 <= m < t.len() && t[m]@.scope == s;
        lemma_view_position(t, s);
        assert(views(t)[m] == t[m]@);
    }
}

/// A table has a map for a scope where one of its maps has that scope.
proof fn lemma_has_scope(t: Seq<ScopeVisibility>)
    ensures
        forall|x: Seq<char>| #[trigger] has_scope(views(t), x) <==> exists|k: int| 0 <= k < t.len() && t[k]@.scope == x,
{
    assert forall|x: Seq<char>| #[trigger] has_scope(views(t), x) <==> exists|k: int| 0 <= k < t.len() && t[k]@.scope == x by {
        if has_scope(views(t), x) {
            let k = choose|k: int| 0 <= k < views(t).len() && views(t)[k].scope == x;
            assert(t[k]@.scope == x);
        }
        if exists|k: int| 0 <= k < t.len() && t[k]@.scope == x {
            let k = choose|k: int| 0 <= k < t.len() && t[k]@.scope == x;
            assert(views(t)[k].scope == x);
        }
    }
}

/// In a table of maps with distinct scopes, the position of a scope among
/// the map values is the one map that has it.
proof fn lemma_view_position(t: Seq<ScopeVisibility>, s: Seq<char>)
    requires
        scopes_unique(t),
    ensures
        forall|k: int| 0 <= k < t.len() && t[k]@.scope == s ==> view_position(views(t), s) == Some(k),
        (forall|k: int| 0 <= k < t.len() ==> t[k]@.scope != s) ==> view_position(views(t), s) is None,
{
    let d = views(t);
    assert forall|k: int| 0 <= k < t.len() && t[k]@.scope == s implies view_position(d, s) == Some(k) by {
        assert(d[k].scope == s);
        let c = choose|c: int| 0 <= c < d.len() && d[c].scope == s;
        assert(t[c]@.scope == s);
        if c != k {
            if c < k {
                assert(t[c]@.scope != t[k]@.scope);
            } else {
                assert(t[k]@.scope != t[c]@.scope);
            }
        }
    }
    if forall|k: int| 0 <= k < t.len() ==> t[k]@.scope != s {
        assert(!exists|k: int| 0 <= k < d.len() && d[k].scope == s);
    }
}

} // verus!

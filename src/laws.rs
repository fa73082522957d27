//! Laws of the index and the resolver, proved over their specifications.
use vstd::prelude::*;

use crate::base::FileId;
use crate::builder::{declared, is_scope, maps_built, maps_fresh, member_of};
use crate::index::{
    Entry, IndexView, Query, added, keep_other_files, keep_others, last_below, lemma_last_below,
    qualified_lookup, removed, selects, tagged,
};
use crate::names::is_qualified;
use crate::resolver::{in_scope, resolve_spec, via_map, walk_outward};
use crate::symbols::{SymbolView, is_definition_kind, is_usage_kind};

verus! {

proof fn lemma_keep_others_add(a: Seq<Entry>, b: Seq<Entry>, f: FileId)
    ensures
        keep_others(a + b, f) == keep_others(a, f) + keep_others(b, f),
    decreases b.len(),
{
    if b.len() == 0 {
        assert(a + b =~= a);
        assert(keep_others(a, f) + keep_others(b, f) =~= keep_others(a, f));
    } else {
        lemma_keep_others_add(a, b.drop_last(), f);
        assert((a + b).drop_last() =~= a + b.drop_last());
        assert((a + b).last() == b.last());
        if b.last().0 != f {
            assert(keep_others(a, f) + keep_others(b.drop_last(), f).push(b.last()) =~= (keep_others(
                a,
                f,
            ) + keep_others(b.drop_last(), f)).push(b.last()));
        }
    }
}

proof fn lemma_keep_others_tagged(f: FileId, syms: Seq<SymbolView>)
    ensures
        keep_others(tagged(f, syms), f) == Seq::<Entry>::empty(),
    decreases syms.len(),
{
    if syms.len() > 0 {
        lemma_keep_others_tagged(f, syms.drop_last());
        assert(tagged(f, syms).drop_last() =~= tagged(f, syms.drop_last()));
    } else {
        assert(tagged(f, syms) =~= Seq::<Entry>::empty());
    }
}

proof fn lemma_keep_others_twice(e: Seq<Entry>, f: FileId)
    ensures
        keep_others(keep_others(e, f), f) == keep_others(e, f),
    decreases e.len(),
{
    if e.len() > 0 {
        lemma_keep_others_twice(e.drop_last(), f);
        let t = keep_others(e.drop_last(), f);
        if e.last().0 != f {
            assert(t.push(e.last()).drop_last() =~= t);
        }
    }
}

proof fn lemma_keep_other_files_twice(s: Seq<FileId>, f: FileId)
    ensures
        keep_other_files(keep_other_files(s, f), f) == keep_other_files(s, f),
    decreases s.len(),
{
    if s.len() > 0 {
        lemma_keep_other_files_twice(s.drop_last(), f);
        let t = keep_other_files(s.drop_last(), f);
        if s.last() != f {
            assert(t.push(s.last()).drop_last() =~= t);
        }
    }
}

/// Adding the same symbols for the same file twice leaves the index as
/// adding them once does: the same entries, the same files, the same
/// staleness, and so the same answer to every lookup and resolution.
pub proof fn law_add_file_idempotent(v: IndexView, f: FileId, syms: Seq<SymbolView>)
    ensures
        added(added(v, f, syms), f, syms) == added(v, f, syms),
        forall|scope: Seq<char>, name: Seq<char>|
            resolve_spec(added(added(v, f, syms), f, syms), scope, name) == resolve_spec(
                added(v, f, syms),
                scope,
                name,
            ),
{
    let once = added(v, f, syms);
    lemma_keep_others_add(keep_others(v.entries, f), tagged(f, syms), f);
    lemma_keep_others_twice(v.entries, f);
    lemma_keep_others_tagged(f, syms);
    assert(keep_others(once.entries, f) =~= keep_others(v.entries, f));
    let fs = keep_other_files(v.files, f);
    assert(fs.push(f).drop_last() =~= fs);
    lemma_keep_other_files_twice(v.files, f);
    assert(keep_other_files(once.files, f) == fs);
}

/// Every entry of `e` not added under `f` is kept.
proof fn lemma_kept(e: Seq<Entry>, f: FileId, i: int)
    requires
        0 <= i < e.len(),
        e[i].0 != f,
    ensures
        keep_others(e, f).contains(e[i]),
    decreases e.len(),
{
    let t = keep_others(e.drop_last(), f);
    if i < e.len() - 1 {
        lemma_kept(e.drop_last(), f, i);
        assert(e.drop_last()[i] == e[i]);
        let j = choose|j: int| 0 <= j < t.len() && t[j] == e[i];
        if e.last().0 != f {
            assert(t.push(e.last())[j] == e[i]);
        }
    } else {
        assert(t.push(e.last())[t.len() as int] == e[i]);
    }
}

/// What is kept was there, under another file.
proof fn lemma_kept_from(e: Seq<Entry>, f: FileId, x: Entry)
    requires
        keep_others(e, f).contains(x),
    ensures
        x.0 != f,
        e.contains(x),
    decreases e.len(),
{
    let t = keep_others(e.drop_last(), f);
    if e.len() > 0 {
        let j = choose|j: int| 0 <= j < keep_others(e, f).len() && keep_others(e, f)[j] == x;
        if j < t.len() {
            assert(t[j] == x);
            lemma_kept_from(e.drop_last(), f, x);
            let k = choose|k: int| 0 <= k < e.drop_last().len() && e.drop_last()[k] == x;
            assert(e[k] == x);
        } else {
            assert(e[e.len() - 1] == x);
        }
    }
}

/// After a file is removed, a qualified name that only its symbols had
/// finds nothing, and every symbol of another file is still found by its
/// qualified name.
pub proof fn law_remove_file(v: IndexView, f: FileId)
    ensures
        forall|i: int|
            0 <= i < v.entries.len() && v.entries[i].0 == f && (forall|j: int|
                0 <= j < v.entries.len() && v.entries[j].0 != f ==> v.entries[j].1.qualified_name
                    != v.entries[i].1.qualified_name) ==> qualified_lookup(
                removed(v, f),
                #[trigger] v.entries[i].1.qualified_name,
            ) is None,
        forall|i: int|
            0 <= i < v.entries.len() && v.entries[i].0 != f ==> qualified_lookup(
                removed(v, f),
                #[trigger] v.entries[i].1.qualified_name,
            ) is Some,
{
    let e = v.entries;
    let k = keep_others(e, f);
    assert forall|i: int|
        0 <= i < e.len() && e[i].0 == f && (forall|j: int|
            0 <= j < e.len() && e[j].0 != f ==> e[j].1.qualified_name != e[i].1.qualified_name)
        implies qualified_lookup(removed(v, f), #[trigger] e[i].1.qualified_name) is None by {
        let q = e[i].1.qualified_name;
        lemma_last_below(k, Query::Qualified(q), k.len() as int);
        if last_below(k, Query::Qualified(q), k.len() as int) is Some {
            let m = last_below(k, Query::Qualified(q), k.len() as int)->0;
            assert(k.contains(k[m]));
            lemma_kept_from(e, f, k[m]);
            let j = choose|j: int| 0 <= j < e.len() && e[j] == k[m];
            assert(e[j].0 != f);
        }
    }
    assert forall|i: int| 0 <= i < e.len() && e[i].0 != f implies qualified_lookup(
        removed(v, f),
        #[trigger] e[i].1.qualified_name,
    ) is Some by {
        let q = e[i].1.qualified_name;
        lemma_kept(e, f, i);
        let j = choose|j: int| 0 <= j < k.len() && k[j] == e[i];
        lemma_last_below(k, Query::Qualified(q), k.len() as int);
        assert(selects(k, Query::Qualified(q), j));
    }
}

/// Whether no two entries share a qualified name.
pub open spec fn qualified_names_unique(e: Seq<Entry>) -> bool {
    forall|a: int, b: int|
        0 <= a < b < e.len() ==> e[a].1.qualified_name != e[b].1.qualified_name
}

/// Whether a symbol declares `x` (as its simple or short name) in `scope`.
pub open spec fn declares(s: SymbolView, scope: Seq<char>, x: Seq<char>) -> bool {
    member_of(s, scope) && (s.name == x || s.short_name == Some(x))
}

proof fn lemma_declared(e: Seq<Entry>, scope: Seq<char>, x: Seq<char>, n: int)
    requires
        0 <= n <= e.len(),
        exists|i: int| 0 <= i < n && declares(e[i].1, scope, x),
    ensures
        declared(e, scope, n).contains_key(x),
        exists|j: int| 0 <= j < n && declares(e[j].1, scope, x) && declared(e, scope, n)[x] == e[j].1.qualified_name,
    decreases n,
{
    let s = e[n - 1].1;
    if declares(s, scope, x) {
        assert(declared(e, scope, n)[x] == s.qualified_name);
    } else {
        let i = choose|i: int| 0 <= i < n && declares(e[i].1, scope, x);
        assert(i < n - 1);
        lemma_declared(e, scope, x, n - 1);
        let j = choose|j: int| 0 <= j < n - 1 && declares(e[j].1, scope, x) && declared(e, scope, n - 1)[x] == e[j].1.qualified_name;
        if member_of(s, scope) {
            assert(s.name != x);
            assert(s.short_name != Some(x));
        }
        assert(declared(e, scope, n)[x] == e[j].1.qualified_name);
    }
}

/// A name declared directly in a scope resolves, from that scope, to a
/// declaration of it there, whatever the scope imports under the same name:
/// imports never shadow direct declarations.
pub proof fn law_shadow_priority(v: IndexView, scope: Seq<char>, x: Seq<char>, i: int)
    requires
        maps_fresh(v),
        qualified_names_unique(v.entries),
        0 <= i < v.entries.len(),
        declares(v.entries[i].1, scope, x),
        !is_qualified(x),
    ensures
        resolve_spec(v, scope, x) matches Some(r) && declares(r, scope, x),
{
    let e = v.entries;
    assert(is_scope(e, scope)) by {
        if scope.len() > 0 {
            assert(crate::names::parent_of(e[i].1.qualified_name) == Some(scope));
        }
    }
    assert(v.scopes.contains_key(scope));
    lemma_declared(e, scope, x, e.len() as int);
    let j = choose|j: int| 0 <= j < e.len() && declares(e[j].1, scope, x) && declared(e, scope, e.len() as int)[x] == e[j].1.qualified_name;
    let vis = v.scopes[scope];
    let d = declared(e, scope, e.len() as int);
    assert(d.submap_of(vis.direct));
    assert(d.contains_key(x));
    assert(vis.direct.contains_key(x) && vis.direct[x] == d[x]);
    let q = e[j].1.qualified_name;
    lemma_last_below(e, Query::Qualified(q), e.len() as int);
    assert(selects(e, Query::Qualified(q), j));
    let m = last_below(e, Query::Qualified(q), e.len() as int)->0;
    assert(m == j) by {
        if m < j {
            assert(e[m].1.qualified_name != e[j].1.qualified_name);
        } else if m > j {
            assert(e[j].1.qualified_name != e[m].1.qualified_name);
        }
    }
    assert(qualified_lookup(v, q) == Some(e[j].1));
    assert(via_map(v, vis, x) == Some(e[j].1));
    assert(in_scope(v, scope, x) == Some(e[j].1));
    assert(walk_outward(v, scope, x) == Some(e[j].1));
}

/// Resolving a type never yields a usage, even where a usage shares the
/// name with a definition: only definitions count as types.
pub proof fn law_resolve_type_definitions(v: IndexView, scope: Seq<char>, name: Seq<char>)
    ensures
        crate::resolver::resolve_type_spec(v, scope, name) matches Some(r) ==> is_definition_kind(r.kind)
            && !is_usage_kind(r.kind),
{
    if let Some(r) = crate::resolver::resolve_type_spec(v, scope, name) {
        crate::symbols::lemma_kinds_partition(r.kind);
    }
}

/// Visibility maps rebuilt from the same entries are the same maps: what a
/// rebuild gives depends on the entries alone.
pub proof fn law_maps_depend_on_entries(a: IndexView, b: IndexView)
    requires
        maps_fresh(a),
        maps_fresh(b),
        a.entries == b.entries,
    ensures
        a.scopes == b.scopes,
{
    assert(maps_built(a));
    assert(maps_built(b));
    assert forall|s: Seq<char>| #[trigger] a.scopes.contains_key(s) <==> b.scopes.contains_key(s) by {
        assert(a.scopes.contains_key(s) <==> is_scope(a.entries, s));
        assert(b.scopes.contains_key(s) <==> is_scope(b.entries, s));
    }
    assert forall|s: Seq<char>| #[trigger] a.scopes.contains_key(s) implies a.scopes[s] == b.scopes[s] by {
        assert(b.scopes.contains_key(s));
    }
    assert(a.scopes =~= b.scopes);
}

/// Adding the same symbols for the same file once or twice and then
/// rebuilding the visibility maps leaves the same index: the same entries,
/// files and maps, and so the same answer to every resolution.
pub proof fn law_add_file_idempotent_rebuilt(
    v: IndexView,
    f: FileId,
    syms: Seq<SymbolView>,
    once: IndexView,
    twice: IndexView,
)
    requires
        once.entries == added(v, f, syms).entries,
        once.files == added(v, f, syms).files,
        twice.entries == added(added(v, f, syms), f, syms).entries,
        twice.files == added(added(v, f, syms), f, syms).files,
        maps_fresh(once),
        maps_fresh(twice),
        !once.dirty,
        !twice.dirty,
    ensures
        once == twice,
        forall|scope: Seq<char>, name: Seq<char>| resolve_spec(once, scope, name) == resolve_spec(twice, scope, name),
{
    law_add_file_idempotent(v, f, syms);
    law_maps_depend_on_entries(once, twice);
}

} // verus!

//! The visibility map of one scope: the simple names visible in it and the
//! qualified names they stand for.
use vstd::prelude::*;

use crate::names::same_text;
use crate::table::{keys_unique, lemma_table_map, table_find, table_get, table_map, table_put};
use crate::symbols::strings_view;

verus! {

/// For one scope, the names declared (or inherited) in it, the names
/// imported into it, and the scopes it publicly re-exports.
#[derive(Clone, Debug)]
pub struct ScopeVisibility {
    scope: String,
    direct_defs: Vec<(String, String)>,
    imports: Vec<(String, String)>,
    public_reexports: Vec<String>,
}

/// The mathematical value of a [`ScopeVisibility`].
pub struct VisibilityView {
    pub scope: Seq<char>,
    pub direct: Map<Seq<char>, Seq<char>>,
    pub imports: Map<Seq<char>, Seq<char>>,
    pub reexports: Seq<Seq<char>>,
}

/// The qualified name that `name` stands for in a scope: a direct entry
/// wins over an imported one.
pub open spec fn visible(v: VisibilityView, name: Seq<char>) -> Option<Seq<char>> {
    if v.direct.contains_key(name) {
        Some(v.direct[name])
    } else if v.imports.contains_key(name) {
        Some(v.imports[name])
    } else {
        None
    }
}

impl View for ScopeVisibility {
    type V = VisibilityView;

    closed spec fn view(&self) -> VisibilityView {
        VisibilityView {
            scope: self.scope@,
            direct: table_map(self.direct_defs@),
            imports: table_map(self.imports@),
            reexports: strings_view(self.public_reexports@),
        }
    }
}

impl ScopeVisibility {
    /// Keys unique in both tables, re-exports without repetition.
    pub closed spec fn wf(&self) -> bool {
        &&& keys_unique(self.direct_defs@)
        &&& keys_unique(self.imports@)
        &&& self@.reexports.no_duplicates()
    }

    /// An empty visibility map for `scope`.
    pub fn new(scope: &str) -> (r: ScopeVisibility)
        ensures
            r.wf(),
            r@.scope == scope@,
            r@.direct == Map::<Seq<char>, Seq<char>>::empty(),
            r@.imports == Map::<Seq<char>, Seq<char>>::empty(),
            r@.reexports.len() == 0,
    {
        let r = ScopeVisibility {
            scope: scope.to_owned(),
            direct_defs: Vec::new(),
            imports: Vec::new(),
            public_reexports: Vec::new(),
        };
        assert(r@.reexports =~= Seq::empty());
        r
    }

    /// The scope this map belongs to.
    pub fn scope(&self) -> (r: &str)
        ensures
            r@ == self@.scope,
    {
        self.scope.as_str()
    }

    /// The qualified name that `name` stands for: direct entries first, then
    /// imports.
    pub fn lookup(&self, name: &str) -> (r: Option<&String>)
        requires
            self.wf(),
        ensures
            match r {
                Some(q) => visible(self@, name@) == Some(q@),
                None => visible(self@, name@) is None,
            },
    {
        match table_get(&self.direct_defs, name) {
            Some(q) => Some(q),
            None => table_get(&self.imports, name),
        }
    }

    /// The direct entry for `name`.
    pub fn lookup_direct(&self, name: &str) -> (r: Option<&String>)
        requires
            self.wf(),
        ensures
            match r {
                Some(q) => self@.direct.contains_key(name@) && self@.direct[name@] == q@,
                None => !self@.direct.contains_key(name@),
            },
    {
        table_get(&self.direct_defs, name)
    }

    /// The imported entry for `name`.
    pub fn lookup_import(&self, name: &str) -> (r: Option<&String>)
        requires
            self.wf(),
        ensures
            match r {
                Some(q) => self@.imports.contains_key(name@) && self@.imports[name@] == q@,
                None => !self@.imports.contains_key(name@),
            },
    {
        table_get(&self.imports, name)
    }

    /// Declares `simple_name` in this scope as `qualified_name`.
    pub fn add_direct(&mut self, simple_name: String, qualified_name: String)
        requires
            old(self).wf(),
        ensures
            final(self).wf(),
            final(self)@.direct == old(self)@.direct.insert(simple_name@, qualified_name@),
            final(self)@.imports == old(self)@.imports,
            final(self)@.reexports == old(self)@.reexports,
            final(self)@.scope == old(self)@.scope,
    {
        table_put(&mut self.direct_defs, simple_name, qualified_name);
    }

    /// Makes `simple_name` visible as `qualified_name` through an import,
    /// unless the scope has a direct entry for it.
    pub fn add_import(&mut self, simple_name: String, qualified_name: String)
        requires
            old(self).wf(),
        ensures
            final(self).wf(),
            final(self)@.direct == old(self)@.direct,
            final(self)@.imports == if old(self)@.direct.contains_key(simple_name@) {
                old(self)@.imports
            } else {
                old(self)@.imports.insert(simple_name@, qualified_name@)
            },
            final(self)@.reexports == old(self)@.reexports,
            final(self)@.scope == old(self)@.scope,
    {
        proof {
            lemma_table_map(self.direct_defs@);
        }
        if table_find(&self.direct_defs, simple_name.as_str()).is_none() {
            table_put(&mut self.imports, simple_name, qualified_name);
        }
    }

    /// Records that this scope publicly re-exports `namespace`.
    pub fn add_public_reexport(&mut self, namespace: String)
        requires
            old(self).wf(),
        ensures
            final(self).wf(),
            final(self)@.reexports == if old(self)@.reexports.contains(namespace@) {
                old(self)@.reexports
            } else {
                old(self)@.reexports.push(namespace@)
            },
            final(self)@.direct == old(self)@.direct,
            final(self)@.imports == old(self)@.imports,
            final(self)@.scope == old(self)@.scope,
    {
        let mut i: usize = 0;
        while i < self.public_reexports.len()
            invariant
                self.wf(),
                *self == *old(self),
                i <= self.public_reexports@.len(),
                forall|j: int| 0 <= j < i ==> self.public_reexports@[j]@ != namespace@,
            decreases self.public_reexports@.len() - i,
        {
            if same_text(self.public_reexports[i].as_str(), namespace.as_str()) {
                assert(self@.reexports[i as int] == namespace@);
                return;
            }
            i = i + 1;
        }
        let ghost before = self.public_reexports@;
        self.public_reexports.push(namespace);
        assert(strings_view(self.public_reexports@) =~= strings_view(before).push(namespace@));
    }

    /// The scopes this scope publicly re-exports, in the order recorded.
    pub fn public_reexports(&self) -> (r: &[String])
        ensures
            strings_view(r@) == self@.reexports,
    {
        self.public_reexports.as_slice()
    }

    /// The direct entries, as (simple name, qualified name) pairs.
    pub fn direct_defs(&self) -> (r: &[(String, String)])
        requires
            self.wf(),
        ensures
            keys_unique(r@),
            table_map(r@) == self@.direct,
    {
        self.direct_defs.as_slice()
    }

    /// The imported entries, as (simple name, qualified name) pairs.
    pub fn imports(&self) -> (r: &[(String, String)])
        requires
            self.wf(),
        ensures
            keys_unique(r@),
            table_map(r@) == self@.imports,
    {
        self.imports.as_slice()
    }

    /// The number of entries, direct and imported.
    pub fn len(&self) -> (r: usize)
        requires
            self.wf(),
            self@.direct.len() + self@.imports.len() <= usize::MAX,
        ensures
            r == self@.direct.len() + self@.imports.len(),
    {
        proof {
            lemma_table_map(self.direct_defs@);
            lemma_table_map(self.imports@);
        }
        self.direct_defs.len() + self.imports.len()
    }

    /// Whether nothing is visible.
    pub fn is_empty(&self) -> (r: bool)
        requires
            self.wf(),
        ensures
            r == (self@.direct.len() == 0 && self@.imports.len() == 0),
    {
        proof {
            lemma_table_map(self.direct_defs@);
            lemma_table_map(self.imports@);
        }
        self.direct_defs.len() == 0 && self.imports.len() == 0
    }
}

impl Default for ScopeVisibility {
    fn default() -> (r: ScopeVisibility)
        ensures
            r.wf(),
            r@.scope == Seq::<char>::empty(),
            r@.direct == Map::<Seq<char>, Seq<char>>::empty(),
            r@.imports == Map::<Seq<char>, Seq<char>>::empty(),
            r@.reexports.len() == 0,
    {
        let r = ScopeVisibility::new("");
        proof {
            reveal_strlit("");
        }
        r
    }
}

} // verus!

//! The table behind string interning: each distinct string gets the next
//! index, and the same string always gets the same one.
use vstd::prelude::*;

use crate::base::Name;
use crate::names::same_text;
use crate::symbols::strings_view;

verus! {

/// Distinct strings, each at the index of its [`Name`].
#[derive(Clone, Debug)]
pub struct NameTable {
    strings: Vec<String>,
}

impl NameTable {
    /// The interned strings, by index.
    pub closed spec fn strings(&self) -> Seq<Seq<char>> {
        strings_view(self.strings@)
    }

    /// No string is interned twice.
    pub closed spec fn wf(&self) -> bool {
        self.strings().no_duplicates()
    }

    /// An empty table.
    pub fn new() -> (r: NameTable)
        ensures
            r.wf(),
            r.strings().len() == 0,
    {
        let r = NameTable { strings: Vec::new() };
        assert(r.strings() =~= Seq::empty());
        r
    }

    /// The name of `s`: its index if it is interned, else the next index,
    /// where it is added.
    pub fn intern(&mut self, s: &str) -> (r: Name)
        requires
            old(self).wf(),
            old(self).strings().len() < u32::MAX,
        ensures
            final(self).wf(),
            r.raw() < final(self).strings().len(),
            final(self).strings()[r.raw() as int] == s@,
            old(self).strings().contains(s@) ==> final(self).strings() == old(self).strings(),
            !old(self).strings().contains(s@) ==> final(self).strings() == old(self).strings().push(s@),
    {
        match self.find(s) {
            Some(i) => Name::from_raw(i as u32),
            None => {
                let index = self.strings.len() as u32;
                let ghost before = self.strings();
                self.strings.push(s.to_owned());
                assert(self.strings() =~= before.push(s@));
                Name::from_raw(index)
            },
        }
    }

    /// The name of `s`, if it is interned.
    pub fn name_of(&self, s: &str) -> (r: Option<Name>)
        requires
            self.strings().len() <= u32::MAX,
        ensures
            match r {
                Some(n) => n.raw() < self.strings().len() && self.strings()[n.raw() as int] == s@,
                None => !self.strings().contains(s@),
            },
    {
        match self.find(s) {
            Some(i) => Some(Name::from_raw(i as u32)),
            None => None,
        }
    }

    /// The index of `s`, if it is interned.
    pub fn find(&self, s: &str) -> (r: Option<usize>)
        ensures
            match r {
                Some(i) => i < self.strings().len() && self.strings()[i as int] == s@,
                None => !self.strings().contains(s@),
            },
    {
        let mut i: usize = 0;
        while i < self.strings.len()
            invariant
                i <= self.strings@.len(),
                forall|k: int| 0 <= k < i ==> self.strings@[k]@ != s@,
            decreases self.strings@.len() - i,
        {
            if same_text(self.strings[i].as_str(), s) {
                return Some(i);
            }
            i = i + 1;
        }
        None
    }

    /// The string of a name, where the name is in the table.
    pub fn lookup(&self, name: Name) -> (r: Option<String>)
        ensures
            match r {
                Some(s) => name.raw() < self.strings().len() && s@ == self.strings()[name.raw() as int],
                None => name.raw() >= self.strings().len(),
            },
    {
        let i = name.index() as usize;
        if i < self.strings.len() {
            Some(self.strings[i].clone())
        } else {
            None
        }
    }

    /// The number of interned strings.
    pub fn len(&self) -> (r: usize)
        ensures
            r == self.strings().len(),
    {
        self.strings.len()
    }

    /// Whether nothing is interned.
    pub fn is_empty(&self) -> (r: bool)
        ensures
            r == (self.strings().len() == 0),
    {
        self.strings.len() == 0
    }
}

impl Default for NameTable {
    fn default() -> (r: NameTable)
        ensures
            r.wf(),
            r.strings().len() == 0,
    {
        NameTable::new()
    }
}

} // verus!

//! Identifiers of definitions: a file and a file-local number.
use vstd::prelude::*;

use crate::base::FileId;

verus! {

/// A file-local definition identifier, assigned in order of discovery.
#[derive(Copy, Clone, PartialEq, Eq, Hash, PartialOrd, Ord, Debug, Structural)]
pub struct LocalDefId(pub u32);

impl LocalDefId {
    /// Creates a local identifier from a raw index.
    pub fn new(id: u32) -> (r: LocalDefId)
        ensures
            r.0 == id,
    {
        LocalDefId(id)
    }

    /// The raw index.
    pub fn index(self) -> (r: u32)
        ensures
            r == self.0,
    {
        self.0
    }
}

/// A globally unique definition identifier: the file and the local id.
#[derive(Copy, Clone, PartialEq, Eq, Hash, Debug, Structural)]
pub struct DefId {
    pub file: FileId,
    pub local: LocalDefId,
}

impl DefId {
    /// Creates a definition identifier.
    pub fn new(file: FileId, local: LocalDefId) -> (r: DefId)
        ensures
            r.file == file,
            r.local == local,
    {
        DefId { file, local }
    }
}

} // verus!

//! Registry nodes: they take part in the network's bookkeeping, not in
//! routing.

use vstd::prelude::*;
use crate::topology::filter::Versioned;

verus! {

/// A registry node, as the directory describes it.
#[derive(Debug)]
pub struct Node {
    pub identity: String,
    pub version: String,
}

impl Clone for Node {
    fn clone(&self) -> (copy: Self)
        ensures
            copy == *self,
    {
        Node { identity: self.identity.clone(), version: self.version.clone() }
    }
}

impl Versioned for Node {
    open spec fn version_view(&self) -> Seq<char> {
        self.version@
    }

    fn get_version(&self) -> (version: String) {
        self.version.clone()
    }

    proof fn lemma_clone_is_exact(&self, copy: &Self) {
    }
}

} // verus!

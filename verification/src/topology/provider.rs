//! Provider nodes: the last hop of every route.

use vstd::prelude::*;
use crate::topology::filter::Versioned;
use crate::topology::route;

verus! {

/// A provider, as the directory describes it. It belongs to no layer: it
/// always follows the last mix node of a route. Its identity is the key that
/// packets are wrapped under for it.
#[derive(Debug)]
pub struct Node {
    pub identity: String,
    pub host: String,
    pub version: String,
}

impl Node {
    /// The hop that stands for this provider in a route.
    pub open spec fn route_node(self) -> route::Node {
        route::Node { address: self.host, pub_key: self.identity }
    }

    /// The hop that stands for this provider in a route: its address and its
    /// identity key.
    pub fn to_route_node(&self) -> (hop: route::Node)
        ensures
            hop == self.route_node(),
    {
        route::Node { address: self.host.clone(), pub_key: self.identity.clone() }
    }
}

impl Clone for Node {
    fn clone(&self) -> (copy: Self)
        ensures
            copy == *self,
    {
        Node {
            identity: self.identity.clone(),
            host: self.host.clone(),
            version: self.version.clone(),
        }
    }
}

impl Versioned for Node {
    open spec fn version_view(&self) -> Seq<char> {
        self.version@
    }

    fn get_version(&self) -> (version: String) {
        self.version.clone()
    }

    proof fn lemma_clone_is_exact(&self, copy: &Self) {
    }
}

} // verus!

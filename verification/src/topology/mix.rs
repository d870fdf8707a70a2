//! Mix nodes: the relays of the layered part of the network.

use vstd::prelude::*;
use crate::topology::filter::Versioned;
use crate::topology::route;

verus! {

/// A relay of one layer of the mix network, as the directory describes it.
#[derive(Debug)]
pub struct Node {
    pub identity: String,
    pub host: String,
    pub pub_key: String,
    pub layer: u64,
    pub version: String,
}

impl Node {
    /// The hop that stands for this node in a route.
    pub open spec fn route_node(self) -> route::Node {
        route::Node { address: self.host, pub_key: self.pub_key }
    }

    /// The hop that stands for this node in a route: its address and its
    /// routing key.
    pub fn to_route_node(&self) -> (hop: route::Node)
        ensures
            hop == self.route_node(),
    {
        route::Node { address: self.host.clone(), pub_key: self.pub_key.clone() }
    }
}

impl Clone for Node {
    fn clone(&self) -> (copy: Self)
        ensures
            copy == *self,
    {
        Node {
            identity: self.identity.clone(),
            host: self.host.clone(),
            pub_key: self.pub_key.clone(),
            layer: self.layer,
            version: self.version.clone(),
        }
    }
}

impl Versioned for Node {
    open spec fn version_view(&self) -> Seq<char> {
        self.version@
    }

    fn get_version(&self) -> (version: String) {
        self.version.clone()
    }

    proof fn lemma_clone_is_exact(&self, copy: &Self) {
    }
}

} // verus!

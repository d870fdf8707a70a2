//! The hop of a route, as the packet layer wants it.

use vstd::prelude::*;

verus! {

/// One hop of a route: where the packet is forwarded to and the key it is
/// wrapped under for that hop.
#[derive(Debug)]
pub struct Node {
    pub address: String,
    pub pub_key: String,
}

impl Node {
    pub fn new(address: String, pub_key: String) -> (node: Self)
        ensures
            node.address == address,
            node.pub_key == pub_key,
    {
        Node { address, pub_key }
    }
}

impl Clone for Node {
    fn clone(&self) -> (copy: Self)
        ensures
            copy == *self,
    {
        Node { address: self.address.clone(), pub_key: self.pub_key.clone() }
    }
}

} // verus!

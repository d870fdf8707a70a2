//! Handing a packet to the first mix node of its route.

use vstd::prelude::*;
use sphinx_packet::SphinxPacket;
use crate::topology::route;

verus! {

/// `sphinx_packet::SphinxPacket`, a packet that is wrapped and ready to
/// travel. Nothing is known of what it holds.
#[verifier::external_type_specification]
#[verifier::external_body]
pub struct ExSphinxPacket(sphinx_packet::SphinxPacket);

/// `SphinxPacket::to_bytes`: the packet as it goes on the wire, its header
/// and then its payload. Nothing is claimed of the bytes.
#[verifier::external_body]
fn packet_bytes(packet: &SphinxPacket) -> Vec<u8> {
    packet.to_bytes()
}

/// Sends packets into the mix network.
pub struct MixClient {}

impl MixClient {
    pub fn new() -> MixClient {
        MixClient {  }
    }

    /// Makes a packet ready for the wire, for the mix node that is its
    /// first hop. Moving the bytes is up to the transport.
    #[allow(unused_variables)]
    pub fn send(&self, packet: SphinxPacket, mix: &route::Node) {
        let bytes = packet_bytes(&packet);
    }
}

} // verus!

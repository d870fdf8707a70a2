//! Acknowledgements: how the identifier of a fragment travels with its
//! packet, and what happens when it comes back.

use vstd::prelude::*;

pub mod identifier;
pub mod listener;
pub mod pending;
pub mod retransmission;

verus! {

/// The number of bytes of the key that protects acknowledgements.
pub const ACK_KEY_LEN: usize = 16;

/// The key that the client shares with the return path of the network. It
/// protects the fragment identifier inside each acknowledgement. It is set
/// once for a session and only read afterwards.
pub struct AckAes128Key {
    key: [u8; ACK_KEY_LEN],
}

impl View for AckAes128Key {
    type V = Seq<u8>;

    closed spec fn view(&self) -> Seq<u8> {
        self.key@
    }
}

impl AckAes128Key {
    pub fn from_bytes(bytes: [u8; ACK_KEY_LEN]) -> (key: Self)
        ensures
            key@ == bytes@,
    {
        AckAes128Key { key: bytes }
    }

    pub fn as_bytes(&self) -> (bytes: &[u8; ACK_KEY_LEN])
        ensures
            bytes@ == self@,
    {
        &self.key
    }
}

} // verus!

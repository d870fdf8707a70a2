//! The name of one fragment of one message, and how it is written in bytes.

use vstd::prelude::*;

verus! {

/// The number of bytes that a fragment identifier takes.
pub const FRAG_ID_LEN: usize = 5;

/// Names one fragment of one chunked message: the message, and the place of
/// the fragment in it. A real fragment has both components above zero. The
/// pair of two zeros is reserved: it marks the acknowledgement of a cover
/// packet, which belongs to no message.
#[derive(Clone, Copy, Debug, PartialEq, Eq, Structural)]
pub struct FragmentIdentifier {
    pub set_id: i32,
    pub fragment_position: u8,
}

/// The identifier that stands for cover traffic.
pub open spec fn cover_frag_id() -> FragmentIdentifier {
    FragmentIdentifier { set_id: 0, fragment_position: 0 }
}

/// Why bytes or numbers do not make a fragment identifier.
#[derive(Clone, Copy, Debug, PartialEq, Eq, Structural)]
pub enum ChunkingError {
    /// The components are neither those of a real fragment nor the reserved
    /// pair, or the bytes are not as many as an identifier takes.
    MalformedFragmentIdentifier,
}

/// The number that the big-endian bytes `b0 b1 b2 b3` write.
pub open spec fn from_be(b0: u8, b1: u8, b2: u8, b3: u8) -> int {
    b0 * 0x100_0000 + b1 * 0x1_0000 + b2 * 0x100 + b3
}

impl FragmentIdentifier {
    /// The identifier that stands for cover traffic.
    pub fn cover() -> (id: Self)
        ensures
            id == cover_frag_id(),
            id.is_cover(),
    {
        FragmentIdentifier { set_id: 0, fragment_position: 0 }
    }

    /// The identifier names a fragment of a real message.
    pub open spec fn is_real(self) -> bool {
        self.set_id >= 1 && self.fragment_position >= 1
    }

    /// The identifier is the one reserved for cover traffic.
    pub open spec fn is_cover(self) -> bool {
        self.set_id == 0 && self.fragment_position == 0
    }

    /// The identifier is one that can be written in bytes and read back.
    pub open spec fn is_well_formed(self) -> bool {
        self.is_real() || self.is_cover()
    }

    /// The bytes of the identifier: the message's number as 32 bits, most
    /// significant byte first, then the fragment's position.
    pub open spec fn encoding(self) -> Seq<u8> {
        let number = self.set_id as u32;
        seq![
            (number / 0x100_0000) as u8,
            (number / 0x1_0000 % 0x100) as u8,
            (number / 0x100 % 0x100) as u8,
            (number % 0x100) as u8,
            self.fragment_position,
        ]
    }

    /// What `bytes` say, if they are the bytes of a well-formed identifier.
    pub open spec fn decoding(bytes: Seq<u8>) -> Option<FragmentIdentifier> {
        if bytes.len() != FRAG_ID_LEN {
            None
        } else {
            let number = from_be(bytes[0], bytes[1], bytes[2], bytes[3]);
            let position = bytes[4];
            if (number >= 1 && number <= i32::MAX && position >= 1) || (number == 0 && position
                == 0) {
                Some(FragmentIdentifier { set_id: number as i32, fragment_position: position })
            } else {
                None
            }
        }
    }

    /// The identifier of the fragment at `fragment_position` of the message
    /// `set_id`. Both count from 1: a zero, or a negative message number,
    /// names no real fragment.
    pub fn new(set_id: i32, fragment_position: u8) -> (made: Result<Self, ChunkingError>)
        ensures
            made is Ok <==> set_id >= 1 && fragment_position >= 1,
            made matches Ok(id) ==> id.set_id == set_id && id.fragment_position
                == fragment_position && id.is_real() && id != cover_frag_id(),
    {
        if set_id >= 1 && fragment_position >= 1 {
            Ok(FragmentIdentifier { set_id, fragment_position })
        } else {
            Err(ChunkingError::MalformedFragmentIdentifier)
        }
    }

    pub fn is_real_fragment(&self) -> (yes: bool)
        ensures
            yes == self.is_real(),
    {
        self.set_id >= 1 && self.fragment_position >= 1
    }

    pub fn is_cover_fragment(&self) -> (yes: bool)
        ensures
            yes == self.is_cover(),
    {
        self.set_id == 0 && self.fragment_position == 0
    }

    /// The identifier in bytes.
    pub fn to_bytes(&self) -> (written: [u8; FRAG_ID_LEN])
        ensures
            written@ == self.encoding(),
    {
        let number: u32 = self.set_id as u32;
        let written: [u8; FRAG_ID_LEN] = [
            (number / 0x100_0000) as u8,
            (number / 0x1_0000 % 0x100) as u8,
            (number / 0x100 % 0x100) as u8,
            (number % 0x100) as u8,
            self.fragment_position,
        ];
        assert(written@ =~= self.encoding());
        written
    }

    /// The identifier that `bytes` write, if they write one.
    pub fn try_from_bytes(bytes: &[u8]) -> (read: Result<Self, ChunkingError>)
        ensures
            read is Ok <==> Self::decoding(bytes@) is Some,
            read matches Ok(id) ==> Self::decoding(bytes@) == Some(id) && id.is_well_formed(),
    {
        if bytes.len() != FRAG_ID_LEN {
            return Err(ChunkingError::MalformedFragmentIdentifier);
        }
        let number: u64 = (bytes[0] as u64) * 0x100_0000 + (bytes[1] as u64) * 0x1_0000 + (
        bytes[2] as u64) * 0x100 + (bytes[3] as u64);
        let position = bytes[4];
        if number > 0x7fff_ffff {
            return Err(ChunkingError::MalformedFragmentIdentifier);
        }
        let set_id = number as i32;
        if (set_id >= 1 && position >= 1) || (set_id == 0 && position == 0) {
            Ok(FragmentIdentifier { set_id, fragment_position: position })
        } else {
            Err(ChunkingError::MalformedFragmentIdentifier)
        }
    }
}

/// The reserved identifier never names a real fragment.
pub proof fn lemma_cover_is_not_real(id: FragmentIdentifier)
    requires
        id.is_real(),
    ensures
        id != cover_frag_id(),
        !id.is_cover(),
{
}

/// What was written is read back unchanged.
pub proof fn lemma_encoding_round_trip(id: FragmentIdentifier)
    requires
        id.is_well_formed(),
    ensures
        FragmentIdentifier::decoding(id.encoding()) == Some(id),
{
    let n = id.set_id as int;
    let bytes = id.encoding();
    assert(0 <= n <= 0x7fff_ffff);
    assert(from_be(bytes[0], bytes[1], bytes[2], bytes[3]) == n);
}

} // verus!

//! The fragment identifier under the shared key.
//!
//! What travels is an initialisation vector followed by the bytes of the
//! identifier, each masked with a byte of the key stream that the key and
//! the vector give.

use vstd::prelude::*;
use crate::acknowledgements::AckAes128Key;
use crate::chunking::fragment::{lemma_encoding_round_trip, FragmentIdentifier, FRAG_ID_LEN};

verus! {

/// The number of bytes of the initialisation vector.
pub const IV_LEN: usize = 16;

/// The number of bytes of a protected identifier.
pub const ACK_LEN: usize = IV_LEN + FRAG_ID_LEN;

/// The first `length` bytes of the key stream of AES-128 in counter mode,
/// for a key and an initialisation vector.
pub uninterp spec fn aes128_ctr_keystream(key: Seq<u8>, iv: Seq<u8>, length: nat) -> Seq<u8>;

/// `sphinx_packet::crypto::generate_pseudorandom_bytes`: as many bytes of
/// the key stream as asked for. The same key and vector give the same bytes.
#[verifier::external_body]
fn keystream(key: &[u8; 16], iv: &[u8; 16], length: usize) -> (stream: Vec<u8>)
    ensures
        stream@ == aes128_ctr_keystream(key@, iv@, length as nat),
        stream@.len() == length,
{
    sphinx_packet::crypto::generate_pseudorandom_bytes(key, iv, length)
}

/// Each byte of `data` combined by exclusive or with the byte of `stream`
/// at its place.
pub open spec fn masked(data: Seq<u8>, stream: Seq<u8>) -> Seq<u8> {
    Seq::new(data.len(), |k: int| data[k] ^ stream[k])
}

/// The identifier as it travels: the vector, then the masked bytes of the
/// identifier.
pub open spec fn protected(key: Seq<u8>, iv: Seq<u8>, id: FragmentIdentifier) -> Seq<u8> {
    iv + masked(id.encoding(), aes128_ctr_keystream(key, iv, FRAG_ID_LEN as nat))
}

/// The bytes of the identifier that `payload` carries, if `payload` has the
/// length of a protected identifier.
pub open spec fn recovered(key: Seq<u8>, payload: Seq<u8>) -> Option<Seq<u8>> {
    if payload.len() != ACK_LEN {
        None
    } else {
        let iv = payload.subrange(0, IV_LEN as int);
        let body = payload.subrange(IV_LEN as int, ACK_LEN as int);
        Some(masked(body, aes128_ctr_keystream(key, iv, FRAG_ID_LEN as nat)))
    }
}

/// The identifier that `payload` carries, if it carries one that is well
/// formed.
pub open spec fn recovered_identifier(key: Seq<u8>, payload: Seq<u8>) -> Option<
    FragmentIdentifier,
> {
    match recovered(key, payload) {
        Some(bytes) => FragmentIdentifier::decoding(bytes),
        None => None,
    }
}

/// Masking twice with the same stream gives the data back.
pub proof fn lemma_mask_twice(data: Seq<u8>, stream: Seq<u8>)
    ensures
        masked(masked(data, stream), stream) == data,
{
    assert forall|k: int| 0 <= k < data.len() implies (data[k] ^ stream[k]) ^ stream[k]
        == data[k] by {
        let d = data[k];
        let s = stream[k];
        assert((d ^ s) ^ s == d) by (bit_vector);
    }
    assert(masked(masked(data, stream), stream) =~= data);
}

/// What was protected under a key is recovered under that key: the bytes
/// of the identifier, and from them the identifier, unchanged.
pub proof fn lemma_identifier_round_trip(key: Seq<u8>, iv: Seq<u8>, id: FragmentIdentifier)
    requires
        iv.len() == IV_LEN,
        id.is_well_formed(),
    ensures
        recovered(key, protected(key, iv, id)) == Some(id.encoding()),
        recovered_identifier(key, protected(key, iv, id)) == Some(id),
{
    let stream = aes128_ctr_keystream(key, iv, FRAG_ID_LEN as nat);
    let payload = protected(key, iv, id);
    assert(payload.subrange(0, IV_LEN as int) =~= iv);
    assert(payload.subrange(IV_LEN as int, ACK_LEN as int) =~= masked(id.encoding(), stream));
    lemma_mask_twice(id.encoding(), stream);
    lemma_encoding_round_trip(id);
}

/// Masks the bytes of an identifier with a key stream: each byte combined
/// by exclusive or with the byte of the stream at its place. Masking again
/// with the same stream gives the bytes back.
pub fn mask(data: &[u8; FRAG_ID_LEN], stream: &[u8; FRAG_ID_LEN]) -> (out: [u8; FRAG_ID_LEN])
    ensures
        out@ == masked(data@, stream@),
{
    let mut out: [u8; FRAG_ID_LEN] = [0u8; FRAG_ID_LEN];
    let mut k: usize = 0;
    while k < FRAG_ID_LEN
        invariant
            k <= FRAG_ID_LEN,
            forall|m: int| 0 <= m < k ==> out@[m] == data@[m] ^ stream@[m],
        decreases FRAG_ID_LEN - k,
    {
        out[k] = data[k] ^ stream[k];
        k += 1;
    }
    assert(out@ =~= masked(data@, stream@));
    out
}

/// The bytes of the key stream that mask one identifier.
fn stream_block(key: &AckAes128Key, iv: &[u8; IV_LEN]) -> (block: [u8; FRAG_ID_LEN])
    ensures
        block@ == aes128_ctr_keystream(key@, iv@, FRAG_ID_LEN as nat),
{
    let stream = keystream(key.as_bytes(), iv, FRAG_ID_LEN);
    let mut block: [u8; FRAG_ID_LEN] = [0u8; FRAG_ID_LEN];
    let mut k: usize = 0;
    while k < FRAG_ID_LEN
        invariant
            k <= FRAG_ID_LEN,
            stream@.len() == FRAG_ID_LEN,
            forall|m: int| 0 <= m < k ==> block@[m] == stream@[m],
        decreases FRAG_ID_LEN - k,
    {
        block[k] = stream[k];
        k += 1;
    }
    assert(block@ =~= stream@);
    block
}

/// Protects the identifier of a fragment under the shared key, for the
/// packet to carry. The vector is the caller's to draw, fresh for each
/// packet.
pub fn prepare_identifier(key: &AckAes128Key, iv: &[u8; IV_LEN], id: &FragmentIdentifier) -> (payload:
    Vec<u8>)
    ensures
        payload@ == protected(key@, iv@, *id),
        payload@.len() == ACK_LEN,
{
    let block = stream_block(key, iv);
    let body = mask(&id.to_bytes(), &block);
    let mut payload: Vec<u8> = Vec::new();
    let mut k: usize = 0;
    while k < IV_LEN
        invariant
            k <= IV_LEN,
            payload@ == iv@.take(k as int),
        decreases IV_LEN - k,
    {
        payload.push(iv[k]);
        assert(payload@ =~= iv@.take(k + 1));
        k += 1;
    }
    assert(iv@.take(IV_LEN as int) =~= iv@);
    let mut k: usize = 0;
    while k < FRAG_ID_LEN
        invariant
            k <= FRAG_ID_LEN,
            payload@ == iv@ + body@.take(k as int),
        decreases FRAG_ID_LEN - k,
    {
        payload.push(body[k]);
        assert(payload@ =~= iv@ + body@.take(k + 1));
        k += 1;
    }
    assert(body@.take(FRAG_ID_LEN as int) =~= body@);
    payload
}

/// Recovers the bytes of the identifier from what an acknowledgement
/// carries. There is nothing to recover where the length is not that of a
/// protected identifier.
pub fn recover_identifier(key: &AckAes128Key, iv_id_ciphertext: &[u8]) -> (id_bytes: Option<
    [u8; FRAG_ID_LEN],
>)
    ensures
        id_bytes is Some <==> iv_id_ciphertext@.len() == ACK_LEN,
        id_bytes matches Some(bytes) ==> recovered(key@, iv_id_ciphertext@) == Some(bytes@),
{
    if iv_id_ciphertext.len() != ACK_LEN {
        return None;
    }
    let mut iv: [u8; IV_LEN] = [0u8; IV_LEN];
    let mut k: usize = 0;
    while k < IV_LEN
        invariant
            k <= IV_LEN,
            iv_id_ciphertext@.len() == ACK_LEN,
            forall|m: int| 0 <= m < k ==> iv@[m] == iv_id_ciphertext@[m],
        decreases IV_LEN - k,
    {
        iv[k] = iv_id_ciphertext[k];
        k += 1;
    }
    assert(iv@ =~= iv_id_ciphertext@.subrange(0, IV_LEN as int));
    let mut body: [u8; FRAG_ID_LEN] = [0u8; FRAG_ID_LEN];
    let mut k: usize = 0;
    while k < FRAG_ID_LEN
        invariant
            k <= FRAG_ID_LEN,
            iv_id_ciphertext@.len() == ACK_LEN,
            forall|m: int| 0 <= m < k ==> body@[m] == iv_id_ciphertext@[IV_LEN + m],
        decreases FRAG_ID_LEN - k,
    {
        body[k] = iv_id_ciphertext[IV_LEN + k];
        k += 1;
    }
    assert(body@ =~= iv_id_ciphertext@.subrange(IV_LEN as int, ACK_LEN as int));
    let block = stream_block(key, &iv);
    Some(mask(&body, &block))
}

} // verus!

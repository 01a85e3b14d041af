//! HMAC-SHA1 (RFC 2104) over a fixed 64-byte key block.
//!
//! SHA-1 itself comes from the `sha1` crate; its result is named `sha1_of`
//! and the HMAC construction around it is stated and proved here.
use vstd::prelude::*;

verus! {

/// The SHA-1 digest of a message, as `sha1::Sha1::digest` computes it.
pub uninterp spec fn sha1_of(message: Seq<u8>) -> Seq<u8>;

/// Relies on `sha1::Sha1::digest` (through the `Digest` trait): the 20-byte
/// SHA-1 digest of the whole message, a function of the message alone.
#[verifier::external_body]
fn sha1_digest(message: &[u8]) -> (r: [u8; 20])
    ensures
        r@ == sha1_of(message@),
{
    <sha1::Sha1 as sha1::Digest>::digest(message).into()
}

/// The key as HMAC uses it: a key longer than the 64-byte block is replaced
/// by its digest, and the result is padded with zero bytes to 64 bytes.
pub open spec fn key_block(key: Seq<u8>) -> Seq<u8> {
    let k = if key.len() > 64 {
        sha1_of(key)
    } else {
        key
    };
    Seq::new(64, |i: int| if i < k.len() { k[i] } else { 0u8 })
}

/// Each byte of `block` XORed with `pad`.
pub open spec fn xor_each(block: Seq<u8>, pad: u8) -> Seq<u8> {
    block.map_values(|b: u8| b ^ pad)
}

/// HMAC-SHA1 of `message` under `key`:
/// `SHA1((K ^ opad) ++ SHA1((K ^ ipad) ++ message))`.
pub open spec fn hmac_sha1(key: Seq<u8>, message: Seq<u8>) -> Seq<u8> {
    let block = key_block(key);
    sha1_of(xor_each(block, 0x5c) + sha1_of(xor_each(block, 0x36) + message))
}

/// The 64-byte key block of `key`.
fn make_key_block(key: &[u8]) -> (r: [u8; 64])
    ensures
        r@ == key_block(key@),
{
    let mut block = [0u8; 64];
    if key.len() > 64 {
        let digest = sha1_digest(key);
        for i in 0..20
            invariant
                digest@ == sha1_of(key@),
                block@.len() == 64,
                forall|j: int| 0 <= j < i ==> block@[j] == digest@[j],
                forall|j: int| i <= j < 64 ==> block@[j] == 0u8,
        {
            block[i] = digest[i];
        }
        assert(block@ =~= key_block(key@));
    } else {
        let n = key.len();
        for i in 0..n
            invariant
                n == key@.len(),
                n <= 64,
                block@.len() == 64,
                forall|j: int| 0 <= j < i ==> block@[j] == key@[j],
                forall|j: int| i <= j < 64 ==> block@[j] == 0u8,
        {
            block[i] = key[i];
        }
        assert(block@ =~= key_block(key@));
    }
    block
}

/// HMAC-SHA1 of an 8-byte message, computed in fixed-size buffers.
pub fn hmac_sha1_digest(key: &[u8], message: &[u8; 8]) -> (r: [u8; 20])
    ensures
        r@ == hmac_sha1(key@, message@),
{
    let block = make_key_block(key);
    let mut inner = [0u8; 72];
    for i in 0..64
        invariant
            inner@.len() == 72,
            forall|j: int| 0 <= j < i ==> inner@[j] == block@[j] ^ 0x36u8,
    {
        inner[i] = block[i] ^ 0x36;
    }
    for i in 0..8
        invariant
            inner@.len() == 72,
            forall|j: int| 0 <= j < 64 ==> inner@[j] == block@[j] ^ 0x36u8,
            forall|j: int| 0 <= j < i ==> inner@[64 + j] == message@[j],
    {
        inner[64 + i] = message[i];
    }
    assert(inner@ =~= xor_each(block@, 0x36) + message@);
    let inner_hash = sha1_digest(inner.as_slice());
    let mut outer = [0u8; 84];
    for i in 0..64
        invariant
            outer@.len() == 84,
            forall|j: int| 0 <= j < i ==> outer@[j] == block@[j] ^ 0x5cu8,
    {
        outer[i] = block[i] ^ 0x5c;
    }
    for i in 0..20
        invariant
            outer@.len() == 84,
            inner_hash@.len() == 20,
            forall|j: int| 0 <= j < 64 ==> outer@[j] == block@[j] ^ 0x5cu8,
            forall|j: int| 0 <= j < i ==> outer@[64 + j] == inner_hash@[j],
    {
        outer[64 + i] = inner_hash[i];
    }
    assert(outer@ =~= xor_each(block@, 0x5c) + inner_hash@);
    sha1_digest(outer.as_slice())
}

} // verus!

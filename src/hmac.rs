//! HMAC over the SHA-512 family (FIPS 198-1).

use crate::sha_512::{digest_len, digest_spec, hash, lemma_digest_len, ShaMode};
use vstd::prelude::*;

verus! {

/// Block size in bytes of every member of the SHA-512 family.
pub const BLOCK_LEN: usize = 128;

/// The key `K0` of block size: a longer key is hashed first, then zeros follow.
pub open spec fn key_block(mode: ShaMode, k: Seq<u8>) -> Seq<u8> {
    let k1 = if k.len() > BLOCK_LEN {
        digest_spec(mode, k)
    } else {
        k
    };
    k1 + Seq::new((BLOCK_LEN - k1.len()) as nat, |i: int| 0u8)
}

/// Each byte of `s` XORed with `b`.
pub open spec fn xor_byte(s: Seq<u8>, b: u8) -> Seq<u8> {
    Seq::new(s.len(), |i: int| s[i] ^ b)
}

/// HMAC of `text` under key `k` with the hash function `mode`.
pub open spec fn hmac_spec(mode: ShaMode, k: Seq<u8>, text: Seq<u8>) -> Seq<u8> {
    let k0 = key_block(mode, k);
    digest_spec(mode, xor_byte(k0, 0x5c) + digest_spec(mode, xor_byte(k0, 0x36) + text))
}

/// Each byte of `k0` XORed with `b`, followed by `tail`.
fn xor_pad_then(k0: &Vec<u8>, b: u8, tail: &Vec<u8>) -> (r: Vec<u8>)
    ensures
        r@ == xor_byte(k0@, b) + tail@,
{
    let mut r: Vec<u8> = Vec::new();
    let mut i: usize = 0;
    while i < k0.len()
        invariant
            i <= k0@.len(),
            r@ =~= xor_byte(k0@, b).take(i as int),
        decreases k0@.len() - i,
    {
        r.push(k0[i] ^ b);
        i = i + 1;
    }
    let mut j: usize = 0;
    while j < tail.len()
        invariant
            j <= tail@.len(),
            r@ =~= xor_byte(k0@, b) + tail@.take(j as int),
        decreases tail@.len() - j,
    {
        r.push(tail[j]);
        j = j + 1;
    }
    assert(tail@.take(tail@.len() as int) =~= tail@);
    r
}

/// HMAC of `text` under key `k`, hashing with `mode`.
pub fn hmac(k: &Vec<u8>, text: &Vec<u8>, mode: ShaMode) -> (r: Vec<u8>)
    ensures
        r@ == hmac_spec(mode, k@, text@),
        r@.len() == digest_len(mode),
{
    // Steps 1-3: the key of block size
    let mut k0: Vec<u8> = if k.len() > BLOCK_LEN {
        hash(k, mode)
    } else {
        k.clone()
    };
    let ghost k1 = k0@;
    let fill: usize = BLOCK_LEN - k0.len();
    let mut i: usize = 0;
    while i < fill
        invariant
            i <= fill,
            k0@ =~= k1 + Seq::new(i as nat, |x: int| 0u8),
        decreases fill - i,
    {
        k0.push(0u8);
        i = i + 1;
    }
    assert(k0@ =~= key_block(mode, k@));
    // Steps 4-6: inner hash
    let inner_in = xor_pad_then(&k0, 0x36, text);
    let inner = hash(&inner_in, mode);
    // Steps 7-9: outer hash
    let outer_in = xor_pad_then(&k0, 0x5c, &inner);
    proof {
        lemma_digest_len(mode, outer_in@);
    }
    hash(&outer_in, mode)
}

} // verus!

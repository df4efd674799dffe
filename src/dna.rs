//! Derivation of identifiers and genetic codes.
use vstd::prelude::*;
use crate::types::{AccountId, Dna, KittyId};

verus! {

/// The Blake2b-256 digest of a byte string.
pub uninterp spec fn blake2_256_of(data: Seq<u8>) -> Seq<u8>;

/// Relies on sp_core's `Blake2Hasher::hash`: the Blake2b digest with a
/// 32-byte output, a function of the input bytes alone.
#[verifier::external_body]
fn blake2_256(data: &Vec<u8>) -> (r: [u8; 32])
    ensures
        r@ == blake2_256_of(data@),
{
    <sp_core::Blake2Hasher as sp_core::Hasher>::hash(data.as_slice()).0
}

/// The `n` low bytes of `x`, least significant first.
pub open spec fn le_bytes(x: nat, n: nat) -> Seq<u8>
    decreases n,
{
    if n == 0 {
        seq![]
    } else {
        seq![(x % 256) as u8] + le_bytes(x / 256, (n - 1) as nat)
    }
}

/// The bytes hashed to name a collectible: its genetic code, the minting
/// account and a random salt, each little-endian.
pub open spec fn mint_payload(caller: AccountId, dna: Dna, salt: u128) -> Seq<u8> {
    le_bytes(dna as nat, 16) + le_bytes(caller as nat, 8) + le_bytes(salt as nat, 16)
}

/// The identifier minted by `caller` for `dna` with `salt`.
pub open spec fn mint_id_spec(caller: AccountId, dna: Dna, salt: u128) -> Seq<u8> {
    blake2_256_of(mint_payload(caller, dna, salt))
}

fn push_le(v: &mut Vec<u8>, x: u128, n: usize)
    ensures
        final(v)@ == old(v)@ + le_bytes(x as nat, n as nat),
{
    let mut y: u128 = x;
    let mut i: usize = 0;
    while i < n
        invariant
            i <= n,
            v@ + le_bytes(y as nat, (n - i) as nat) == old(v)@ + le_bytes(x as nat, n as nat),
        decreases n - i,
    {
        let ghost prev = v@;
        v.push((y % 256) as u8);
        proof {
            let rest = le_bytes((y / 256) as nat, (n - i - 1) as nat);
            assert(le_bytes(y as nat, (n - i) as nat) == seq![(y % 256) as u8] + rest);
            assert(prev + (seq![(y % 256) as u8] + rest) =~= v@ + rest);
        }
        y = y / 256;
        i = i + 1;
    }
}

/// Derives the identifier of a collectible minted by `caller` with genetic
/// code `dna`, hashing them together with a random `salt`.
pub fn mint_id(caller: AccountId, dna: Dna, salt: u128) -> (r: KittyId)
    ensures
        r.bytes@ == mint_id_spec(caller, dna, salt),
{
    let mut payload: Vec<u8> = Vec::new();
    push_le(&mut payload, dna, 16);
    push_le(&mut payload, caller as u128, 8);
    push_le(&mut payload, salt, 16);
    assert(payload@ =~= mint_payload(caller, dna, salt));
    KittyId { bytes: blake2_256(&payload) }
}

/// The child code: where a bit of `mask` is set the bit comes from `a`,
/// elsewhere from `b`.
pub open spec fn mix_spec(a: Dna, b: Dna, mask: u128) -> Dna {
    (mask & a) | (!mask & b)
}

/// Combines two parent codes under a random selection mask.
pub fn breed_dna(a: Dna, b: Dna, mask: u128) -> (r: Dna)
    ensures
        r == mix_spec(a, b, mask),
{
    (mask & a) | (!mask & b)
}

/// Bit `i` of `x`, as 0 or 1.
pub open spec fn bit(x: u128, i: u128) -> u128 {
    (x >> i) & 1
}

/// Every bit of a bred code equals the bit of one parent at the same
/// position: that of `a` where the mask is set, that of `b` elsewhere.
pub proof fn lemma_child_bits_from_parents(a: Dna, b: Dna, mask: u128, i: u128)
    requires
        i < 128,
    ensures
        bit(mix_spec(a, b, mask), i) == if bit(mask, i) == 1 {
            bit(a, i)
        } else {
            bit(b, i)
        },
{
    assert((((mask & a) | (!mask & b)) >> i) & 1 == if (mask >> i) & 1 == 1 {
        (a >> i) & 1
    } else {
        (b >> i) & 1
    }) by (bit_vector)
        requires
            i < 128,
    ;
}

} // verus!

//! Deterministic hashes: the payload checksum and the Bloom-filter key hash.

use vstd::prelude::*;

verus! {

/// Offset basis of the 64-bit FNV-1a hash.
pub const FNV_OFFSET: u64 = 0xcbf29ce484222325;

/// Prime of the 64-bit FNV-1a hash.
pub const FNV_PRIME: u64 = 0x100000001b3;

/// Word mixed in between the collection part and the id part of a key hash.
pub const KEY_SEPARATOR: u64 = 0xFF;

/// Salt of the positions of a collection name.
pub const COLLECTION_SALT: u64 = 31;

/// Salt of the length of an id.
pub const ID_LENGTH_SALT: u64 = 37;

/// Salt of the positions of an id.
pub const ID_SALT: u64 = 53;

/// One FNV-1a round: xor the word in, then multiply by the prime, modulo 2^64.
pub open spec fn mix(hash: u64, word: u64) -> u64 {
    (hash ^ word).wrapping_mul(FNV_PRIME)
}

/// The checksum of a byte sequence: the FNV-1a rounds over its bytes, first to last.
pub open spec fn checksum(data: Seq<u8>) -> u64
    decreases data.len(),
{
    if data.len() == 0 {
        FNV_OFFSET
    } else {
        mix(checksum(data.drop_last()), data.last() as u64)
    }
}

/// `rounds` further rounds on `hash`; round `p` (counted from 1) mixes in
/// `p * salt` modulo 2^64.
pub open spec fn salted_rounds(hash: u64, rounds: nat, salt: u64) -> u64
    decreases rounds,
{
    if rounds == 0 {
        hash
    } else {
        mix(salted_rounds(hash, (rounds - 1) as nat, salt), (rounds as u64).wrapping_mul(salt))
    }
}

/// The base hash of a key. It depends on the seed and on the two lengths
/// only: keys whose collection names and ids are equally long share it.
#[verifier::opaque]
pub open spec fn key_hash(collection_len: u64, id_len: u64, seed: u64) -> u64 {
    let collection_part = salted_rounds(
        mix(seed, collection_len),
        collection_len as nat,
        COLLECTION_SALT,
    );
    let id_start = mix(mix(collection_part, KEY_SEPARATOR), id_len.wrapping_mul(ID_LENGTH_SALT));
    salted_rounds(id_start, id_len as nat, ID_SALT)
}

/// Length of a name in bytes, as the key hash counts it.
pub open spec fn byte_len(name: Seq<u8>) -> u64 {
    name.len() as u64
}

/// Computes the order-sensitive rolling checksum of a payload.
pub fn simple_hash(data: &[u8]) -> (hash: u64)
    ensures
        hash == checksum(data@),
{
    let mut hash: u64 = FNV_OFFSET;
    let mut i: usize = 0;
    while i < data.len()
        invariant
            i <= data.len(),
            hash == checksum(data@.take(i as int)),
        decreases data.len() - i,
    {
        proof {
            assert(data@.take(i + 1).drop_last() =~= data@.take(i as int));
        }
        hash = (hash ^ (data[i] as u64)).wrapping_mul(FNV_PRIME);
        i += 1;
    }
    proof {
        assert(data@.take(i as int) =~= data@);
    }
    hash
}

/// Runs `rounds` salted rounds on `hash`.
fn salted(hash: u64, rounds: u64, salt: u64) -> (out: u64)
    ensures
        out == salted_rounds(hash, rounds as nat, salt),
{
    let mut out: u64 = hash;
    let mut i: u64 = 0;
    while i < rounds
        invariant
            i <= rounds,
            out == salted_rounds(hash, i as nat, salt),
        decreases rounds - i,
    {
        out = (out ^ (i + 1).wrapping_mul(salt)).wrapping_mul(FNV_PRIME);
        i += 1;
    }
    out
}

/// The base hash of a key whose collection name and id have these lengths.
pub fn hash_lengths(collection_len: u64, id_len: u64, seed: u64) -> (hash: u64)
    ensures
        hash == key_hash(collection_len, id_len, seed),
{
    reveal(key_hash);
    let mut hash: u64 = (seed ^ collection_len).wrapping_mul(FNV_PRIME);
    hash = salted(hash, collection_len, COLLECTION_SALT);
    hash = (hash ^ KEY_SEPARATOR).wrapping_mul(FNV_PRIME);
    hash = (hash ^ id_len.wrapping_mul(ID_LENGTH_SALT)).wrapping_mul(FNV_PRIME);
    salted(hash, id_len, ID_SALT)
}

/// Hashes a collection name and an id for the Bloom filter.
pub fn bloom_key_hash(collection: &[u8], id: &[u8], seed: u64) -> (hash: u64)
    ensures
        hash == key_hash(byte_len(collection@), byte_len(id@), seed),
{
    let collection_len: u64 = collection.len() as u64;
    let id_len: u64 = id.len() as u64;
    hash_lengths(collection_len, id_len, seed)
}

} // verus!

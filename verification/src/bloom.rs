//! The Bloom-filter existence index: a fixed array of bits that only ever
//! gains bits, probed at a fixed number of positions per key.

use vstd::prelude::*;
use crate::hash::{bloom_key_hash, byte_len, key_hash};

verus! {

/// Size of the bit array in bytes.
pub const BLOOM_SIZE_BYTES: usize = 2048;

/// Size of the bit array in bits.
pub const BLOOM_SIZE_BITS: u64 = 16384;

/// Number of positions probed per key.
pub const BLOOM_K: u64 = 7;

/// Seed a fresh filter hashes with.
pub const DEFAULT_SEED: u64 = 42;

/// The filter: its bit array and the seed of its hash.
#[derive(Clone, Copy, Debug, PartialEq, Eq)]
pub struct BloomFilter {
    pub bits: [u8; 2048],
    pub seed: u64,
}

/// Whether bit `pos` is set in `bytes`; bit `pos` is bit `pos % 8` of byte `pos / 8`.
pub open spec fn bit_at(bytes: Seq<u8>, pos: int) -> bool {
    bytes[pos / 8] & (1u8 << ((pos % 8) as u8)) != 0
}

/// The positions of the bits that are set in `bytes`.
pub open spec fn set_bits(bytes: Seq<u8>) -> Set<int> {
    Set::new(|pos: int| 0 <= pos < 8 * bytes.len() && bit_at(bytes, pos))
}

/// The `i`-th position probed for a key with base hash `base`.
pub open spec fn probe(base: u64, i: int) -> int {
    (base + i * (base >> 16)) % (BLOOM_SIZE_BITS as int)
}

/// The positions probed for a key with base hash `base`.
pub open spec fn probes(base: u64) -> Set<int> {
    Set::new(|pos: int| exists|i: int| 0 <= i < BLOOM_K && pos == #[trigger] probe(base, i))
}

/// The positions probed for the key `(collection, id)` under `seed`.
pub open spec fn key_probes(collection: Seq<u8>, id: Seq<u8>, seed: u64) -> Set<int> {
    probes(key_hash(byte_len(collection), byte_len(id), seed))
}

impl BloomFilter {
    /// The positions of the bits that are set.
    pub open spec fn positions(&self) -> Set<int> {
        set_bits(self.bits@)
    }

    /// Whether the filter answers "probably present" for the key.
    pub open spec fn may_contain(&self, collection: Seq<u8>, id: Seq<u8>) -> bool {
        key_probes(collection, id, self.seed).subset_of(self.positions())
    }

    /// A filter with no bit set and the default seed.
    pub fn new() -> (filter: BloomFilter)
        ensures
            filter.positions() == Set::<int>::empty(),
            filter.seed == DEFAULT_SEED,
    {
        let filter = BloomFilter { bits: [0u8; 2048], seed: DEFAULT_SEED };
        proof {
            assert forall|pos: int| 0 <= pos < 16384 implies !bit_at(filter.bits@, pos) by {
                let shift = (pos % 8) as u8;
                assert(filter.bits@[pos / 8] == 0u8);
                assert(0u8 & (1u8 << shift) == 0) by (bit_vector);
            }
            assert(filter.positions() =~= Set::<int>::empty());
        }
        filter
    }
}

/// Setting bit `j` of a byte sets that bit and leaves the others as they were.
proof fn lemma_or_bit(byte: u8, j: u8, k: u8)
    by (bit_vector)
    requires
        j < 8,
        k < 8,
    ensures
        ((byte | (1u8 << j)) & (1u8 << k) != 0) == ((byte & (1u8 << k)) != 0 || j == k),
{
}

/// Setting one bit adds its position to the set bits and changes nothing else.
proof fn lemma_set_bit(before: Seq<u8>, after: Seq<u8>, pos: int)
    requires
        0 <= pos < 8 * before.len(),
        after == before.update(pos / 8, before[pos / 8] | (1u8 << ((pos % 8) as u8))),
    ensures
        set_bits(after) == set_bits(before).insert(pos),
{
    assert forall|q: int| 0 <= q < 8 * before.len() implies bit_at(after, q) == (bit_at(before, q)
        || q == pos) by {
        if q / 8 == pos / 8 {
            lemma_or_bit(before[pos / 8], (pos % 8) as u8, (q % 8) as u8);
        }
    }
    assert(set_bits(after) =~= set_bits(before).insert(pos));
}

/// The first `n` positions probed for a key with base hash `base`.
spec fn first_probes(base: u64, n: int) -> Set<int> {
    Set::new(|pos: int| exists|i: int| 0 <= i < n && pos == #[trigger] probe(base, i))
}

/// A key is probed at no more than `BLOOM_K` positions.
pub proof fn lemma_probes_bound(base: u64)
    ensures
        probes(base).finite(),
        probes(base).len() <= BLOOM_K,
{
    lemma_first_probes_bound(base, BLOOM_K as nat);
    assert(first_probes(base, BLOOM_K as int) =~= probes(base));
}

/// The first `n` probes are no more than `n` positions.
proof fn lemma_first_probes_bound(base: u64, n: nat)
    ensures
        first_probes(base, n as int).finite(),
        first_probes(base, n as int).len() <= n,
    decreases n,
{
    if n == 0 {
        assert(first_probes(base, 0) =~= Set::<int>::empty());
    } else {
        lemma_first_probes_bound(base, (n - 1) as nat);
        assert(first_probes(base, n as int) =~= first_probes(base, n - 1).insert(
            probe(base, n - 1),
        ));
    }
}

/// Computes the `i`-th probed position.
fn probe_position(base: u64, i: u64) -> (pos: u32)
    requires
        i < BLOOM_K,
    ensures
        pos == probe(base, i as int),
        pos < BLOOM_SIZE_BITS,
{
    let step: u64 = base >> 16;
    assert(step <= 0xffff_ffff_ffff) by (bit_vector)
        requires
            step == base >> 16,
    ;
    assert(i * step <= 6 * 0xffff_ffff_ffff) by (nonlinear_arith)
        requires
            i <= 6,
            step <= 0xffff_ffff_ffff,
    ;
    let sum: u64 = base.wrapping_add(i * step);
    (sum % BLOOM_SIZE_BITS) as u32
}

/// Adds a key to the filter: sets the bits at its probed positions. No bit
/// is ever cleared.
pub fn bloom_add(filter: &mut BloomFilter, collection: &[u8], id: &[u8])
    ensures
        final(filter).seed == old(filter).seed,
        final(filter).positions() == old(filter).positions().union(
            key_probes(collection@, id@, old(filter).seed),
        ),
{
    let base_hash: u64 = bloom_key_hash(collection, id, filter.seed);
    let mut i: u64 = 0;
    while i < BLOOM_K
        invariant
            i <= BLOOM_K,
            filter.seed == old(filter).seed,
            filter.positions() == old(filter).positions().union(first_probes(base_hash, i as int)),
        decreases BLOOM_K - i,
    {
        let bit_pos: u32 = probe_position(base_hash, i);
        let byte_idx: usize = (bit_pos / 8) as usize;
        let bit_idx: u32 = bit_pos % 8;
        let ghost before = filter.bits@;
        let current: u8 = filter.bits[byte_idx];
        filter.bits[byte_idx] = current | (1u8 << bit_idx);
        proof {
            assert((bit_idx as u8) == ((bit_pos as int) % 8) as u8);
            assert(1u8 << bit_idx == 1u8 << (bit_idx as u8)) by (bit_vector)
                requires
                    bit_idx < 8,
            ;
            lemma_set_bit(before, filter.bits@, bit_pos as int);
            assert(first_probes(base_hash, i + 1) =~= first_probes(base_hash, i as int).insert(
                bit_pos as int,
            ));
            assert(filter.positions() =~= old(filter).positions().union(
                first_probes(base_hash, i + 1),
            ));
        }
        i += 1;
    }
    proof {
        assert(first_probes(base_hash, BLOOM_K as int) =~= probes(base_hash));
    }
}

/// Tests a key against a bit array: true when every probed bit is set. One
/// unset bit proves that the key was never added.
pub fn bloom_test_internal(bloom: &[u8; 2048], collection: &[u8], id: &[u8], seed: u64) -> (present:
    bool)
    ensures
        present == key_probes(collection@, id@, seed).subset_of(set_bits(bloom@)),
{
    let base_hash: u64 = bloom_key_hash(collection, id, seed);
    let mut i: u64 = 0;
    while i < BLOOM_K
        invariant
            i <= BLOOM_K,
            base_hash == key_hash(byte_len(collection@), byte_len(id@), seed),
            first_probes(base_hash, i as int).subset_of(set_bits(bloom@)),
        decreases BLOOM_K - i,
    {
        let bit_pos: u32 = probe_position(base_hash, i);
        let byte_idx: usize = (bit_pos / 8) as usize;
        let bit_idx: u32 = bit_pos % 8;
        let current: u8 = bloom[byte_idx];
        proof {
            assert(1u8 << bit_idx == 1u8 << (bit_idx as u8)) by (bit_vector)
                requires
                    bit_idx < 8,
            ;
        }
        if current & (1u8 << bit_idx) == 0 {
            proof {
                assert(!set_bits(bloom@).contains(bit_pos as int));
                assert(probes(base_hash).contains(probe(base_hash, i as int)));
                assert(key_probes(collection@, id@, seed).contains(bit_pos as int));
            }
            return false;
        }
        proof {
            assert(set_bits(bloom@).contains(bit_pos as int));
            assert(first_probes(base_hash, i + 1) =~= first_probes(base_hash, i as int).insert(
                bit_pos as int,
            ));
        }
        i += 1;
    }
    proof {
        assert(first_probes(base_hash, BLOOM_K as int) =~= probes(base_hash));
    }
    true
}

} // verus!

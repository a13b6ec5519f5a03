//! The vault as a mathematical value, and each operation as a function from
//! the state before to the state after.

use vstd::prelude::*;
use crate::bloom::{key_probes, DEFAULT_SEED};
use crate::hash::checksum;
use crate::index::{distinct_ids, has_id, removed, upserted};
use crate::stats::{empty_stats, moved_to_cold, update_fits, updated};
use crate::types::{
    entry_of, ChunkMeta, CompressionAlgo, IndexEntryView, StorageStats, StorageZone, VaultError,
};

verus! {

/// A chunk's key: its collection and its id.
pub type ChunkKey = (Seq<u8>, Seq<u8>);

/// How many times larger than the stored payload the uncompressed payload is taken to be.
pub const ORIGINAL_SIZE_FACTOR: u32 = 4;

/// Everything a vault holds.
#[verifier::ext_equal]
pub struct VaultState {
    /// The administrator, once the vault is initialized.
    pub admin: Option<Seq<char>>,
    /// The payload of each chunk.
    pub chunks: Map<ChunkKey, Seq<u8>>,
    /// The metadata of each chunk.
    pub metas: Map<ChunkKey, ChunkMeta>,
    /// The patches logged for each chunk, oldest first.
    pub deltas: Map<ChunkKey, Seq<Seq<u8>>>,
    /// The index of each collection.
    pub indexes: Map<Seq<u8>, Seq<IndexEntryView>>,
    /// The positions of the bits set in the Bloom filter.
    pub bloom: Set<int>,
    /// The seed of the Bloom filter's hash.
    pub seed: u64,
    /// The storage statistics.
    pub stats: StorageStats,
}

/// Whether an index entry gives the zone, the size and the version that the
/// metadata gives.
pub open spec fn mirrors(entry: IndexEntryView, meta: ChunkMeta) -> bool {
    &&& entry.zone == meta.zone
    &&& entry.compressed_size == meta.compressed_size
    &&& entry.version == meta.version
}

/// The statistics without the share of a chunk with this metadata.
pub open spec fn without_share(stats: StorageStats, meta: ChunkMeta) -> StorageStats {
    updated(
        stats,
        meta.compressed_size as u64,
        meta.original_size as u64,
        false,
        meta.zone == StorageZone::Hot,
    )
}

/// Whether the statistics can be recomputed without the share of a chunk
/// with this metadata.
pub open spec fn share_fits(stats: StorageStats, meta: ChunkMeta) -> bool {
    update_fits(
        stats,
        meta.compressed_size as u64,
        meta.original_size as u64,
        false,
        meta.zone == StorageZone::Hot,
    )
}

/// The sum of the compressed sizes of the given metadata, or of the
/// original sizes when `original` is set.
pub open spec fn size_sum(metas: Map<ChunkKey, ChunkMeta>, original: bool) -> nat
    decreases metas.dom().len(),
    when metas.dom().finite()
{
    if metas.dom().len() == 0 {
        0
    } else {
        let key = metas.dom().choose();
        size_of(metas[key], original) + size_sum(metas.remove(key), original)
    }
}

/// The compressed size of one chunk, or its original size when `original` is set.
pub open spec fn size_of(meta: ChunkMeta, original: bool) -> nat {
    if original {
        meta.original_size as nat
    } else {
        meta.compressed_size as nat
    }
}

/// The patches of a log as byte sequences, in order.
pub open spec fn patch_views(patches: Seq<Vec<u8>>) -> Seq<Seq<u8>> {
    patches.map_values(|p: Vec<u8>| p@)
}

/// The metadata written with a payload: tagged as compressed by the caller,
/// the uncompressed size estimated at four times the payload's length, version 1.
pub open spec fn fresh_meta(data: Seq<u8>, zone: StorageZone, now: u64) -> ChunkMeta {
    ChunkMeta {
        compression: CompressionAlgo::Zstd,
        original_size: (data.len() * ORIGINAL_SIZE_FACTOR) as u32,
        compressed_size: data.len() as u32,
        checksum: checksum(data),
        zone,
        version: 1,
        created_at: now,
        updated_at: now,
    }
}

impl VaultState {
    /// A vault that holds nothing and has no administrator.
    pub open spec fn empty() -> VaultState {
        VaultState {
            admin: None,
            chunks: Map::empty(),
            metas: Map::empty(),
            deltas: Map::empty(),
            indexes: Map::empty(),
            bloom: Set::empty(),
            seed: DEFAULT_SEED,
            stats: empty_stats(),
        }
    }

    /// Why a mutating call of `caller` is refused before it starts, if it is.
    pub open spec fn refusal(self, caller: Seq<char>) -> Option<VaultError> {
        match self.admin {
            None => Some(VaultError::NotInitialized),
            Some(admin) => if admin == caller {
                None
            } else {
                Some(VaultError::Unauthorized)
            },
        }
    }

    /// Why a batch is refused, if it is: the caller's refusal first, then
    /// sequences of unequal lengths.
    pub open spec fn batch_refusal(
        self,
        caller: Seq<char>,
        collections: nat,
        ids: nat,
        values: nat,
    ) -> Option<VaultError> {
        if self.refusal(caller) is Some {
            self.refusal(caller)
        } else if collections != ids || collections != values {
            Some(VaultError::SizeMismatch)
        } else {
            None
        }
    }

    /// Why a delta update is refused, if it is: the caller's refusal first,
    /// then a chunk that does not exist.
    pub open spec fn delta_refusal(
        self,
        caller: Seq<char>,
        collection: Seq<u8>,
        id: Seq<u8>,
    ) -> Option<VaultError> {
        if self.refusal(caller) is Some {
            self.refusal(caller)
        } else if !self.has(collection, id) {
            Some(VaultError::NotFound)
        } else {
            None
        }
    }

    /// Whether the chunk exists.
    pub open spec fn has(self, collection: Seq<u8>, id: Seq<u8>) -> bool {
        self.chunks.contains_key((collection, id))
    }

    /// The payload of the chunk; empty when there is none.
    pub open spec fn payload(self, collection: Seq<u8>, id: Seq<u8>) -> Seq<u8> {
        if self.chunks.contains_key((collection, id)) {
            self.chunks[(collection, id)]
        } else {
            Seq::empty()
        }
    }

    /// The metadata of the chunk, if there is any.
    pub open spec fn meta(self, collection: Seq<u8>, id: Seq<u8>) -> Option<ChunkMeta> {
        if self.metas.contains_key((collection, id)) {
            Some(self.metas[(collection, id)])
        } else {
            None
        }
    }

    /// The patches logged for the chunk, oldest first; empty when there are none.
    pub open spec fn delta_log(self, collection: Seq<u8>, id: Seq<u8>) -> Seq<Seq<u8>> {
        if self.deltas.contains_key((collection, id)) {
            self.deltas[(collection, id)]
        } else {
            Seq::empty()
        }
    }

    /// The index of the collection; empty when there is none.
    pub open spec fn index(self, collection: Seq<u8>) -> Seq<IndexEntryView> {
        if self.indexes.contains_key(collection) {
            self.indexes[collection]
        } else {
            Seq::empty()
        }
    }

    /// What the Bloom filter answers for the key: true when every position
    /// probed for it is set.
    pub open spec fn bloom_check(self, collection: Seq<u8>, id: Seq<u8>) -> bool {
        key_probes(collection, id, self.seed).subset_of(self.bloom)
    }

    /// Whether the filter answers "probably present" for every chunk that exists.
    pub open spec fn no_false_negatives(self) -> bool {
        forall|collection: Seq<u8>, id: Seq<u8>| #[trigger]
            self.has(collection, id) ==> self.bloom_check(collection, id)
    }

    /// Whether the vault holds finitely many chunks, each with its metadata,
    /// and none without an administrator.
    pub open spec fn paired(self) -> bool {
        &&& self.chunks.dom().finite()
        &&& self.chunks.dom() =~= self.metas.dom()
        &&& self.admin is None ==> self.chunks.dom() =~= Set::<ChunkKey>::empty()
    }

    /// Whether every chunk's uncompressed size is estimated at four times
    /// its stored size.
    pub open spec fn sized(self) -> bool {
        forall|key: ChunkKey| #[trigger]
            self.metas.contains_key(key) ==> self.metas[key].original_size
                == self.metas[key].compressed_size * ORIGINAL_SIZE_FACTOR
    }

    /// The keys whose metadata places them in the given zone.
    pub open spec fn zone_keys(self, zone: StorageZone) -> Set<ChunkKey> {
        Set::new(|key: ChunkKey| self.metas.contains_key(key) && self.metas[key].zone == zone)
    }

    /// Whether the statistics count exactly the chunks that exist, in all
    /// and in each zone.
    pub open spec fn counted(self) -> bool {
        &&& self.stats.total_entries == self.chunks.dom().len()
        &&& self.stats.hot_entries == self.zone_keys(StorageZone::Hot).len()
        &&& self.stats.cold_entries == self.zone_keys(StorageZone::Cold).len()
    }

    /// Whether the byte totals of the statistics are the sums of the sizes
    /// of the chunks that exist.
    pub open spec fn summed(self) -> bool {
        &&& self.stats.total_bytes_stored == size_sum(self.metas, false)
        &&& self.stats.total_bytes_original == size_sum(self.metas, true)
    }

    /// Whether the indexes list the chunks: each collection's index has
    /// exactly one entry for each of its chunks and no other, and each entry
    /// gives the zone, the size and the version of its chunk's metadata.
    pub open spec fn indexed(self) -> bool {
        &&& forall|collection: Seq<u8>, id: Seq<u8>|
            #![trigger self.has(collection, id)]
            #![trigger has_id(self.index(collection), id)]
            self.has(collection, id) <==> has_id(self.index(collection), id)
        &&& forall|collection: Seq<u8>| distinct_ids(#[trigger] self.index(collection))
        &&& forall|collection: Seq<u8>, k: int|
            0 <= k < self.index(collection).len() ==> {
                let entry = #[trigger] self.index(collection)[k];
                self.metas.contains_key((collection, entry.id)) && mirrors(
                    entry,
                    self.metas[(collection, entry.id)],
                )
            }
    }

    /// What holds of every vault that started empty and was changed by the
    /// operations alone: chunks and metadata go in pairs, the filter has no
    /// false negatives, the statistics count and sum exactly the chunks that
    /// exist, and the indexes list them.
    pub open spec fn consistent(self) -> bool {
        &&& self.paired()
        &&& self.no_false_negatives()
        &&& self.sized()
        &&& self.counted()
        &&& self.summed()
        &&& self.indexed()
    }

    /// Whether every chunk's delta log is as long as the number of versions
    /// that followed its first.
    pub open spec fn logs_match_versions(self) -> bool {
        forall|collection: Seq<u8>, id: Seq<u8>| #[trigger]
            self.metas.contains_key((collection, id)) ==> self.delta_log(collection, id).len()
                == self.metas[(collection, id)].version - 1
    }

    /// The state after initialization: the administrator is set, the filter
    /// and the statistics start from nothing.
    pub open spec fn initialized(self, admin: Seq<char>) -> VaultState {
        VaultState {
            admin: Some(admin),
            bloom: Set::empty(),
            seed: DEFAULT_SEED,
            stats: empty_stats(),
            ..self
        }
    }

    /// The statistics once the share of the chunk under this key, if there
    /// is one, has been taken out.
    pub open spec fn stats_without(self, collection: Seq<u8>, id: Seq<u8>) -> StorageStats {
        if self.metas.contains_key((collection, id)) {
            without_share(self.stats, self.metas[(collection, id)])
        } else {
            self.stats
        }
    }

    /// Whether a payload of this length can be written under this key: its
    /// estimated uncompressed size fits in 32 bits, the share of the chunk it
    /// replaces can be taken out of the statistics, and the statistics then
    /// have room for it.
    pub open spec fn write_fits(
        self,
        collection: Seq<u8>,
        id: Seq<u8>,
        len: nat,
        zone: StorageZone,
    ) -> bool {
        &&& len * ORIGINAL_SIZE_FACTOR <= u32::MAX
        &&& self.metas.contains_key((collection, id)) ==> share_fits(
            self.stats,
            self.metas[(collection, id)],
        )
        &&& update_fits(
            self.stats_without(collection, id),
            len as u64,
            (len * ORIGINAL_SIZE_FACTOR) as u64,
            true,
            zone == StorageZone::Hot,
        )
    }

    /// The state after a payload was written under a key: payload and
    /// metadata replace what was there, the key is added to the filter, the
    /// index entry is written, and the statistics count the new chunk in
    /// place of the one it replaces.
    pub open spec fn with_chunk(
        self,
        collection: Seq<u8>,
        id: Seq<u8>,
        data: Seq<u8>,
        zone: StorageZone,
        now: u64,
    ) -> VaultState {
        let meta = fresh_meta(data, zone, now);
        VaultState {
            chunks: self.chunks.insert((collection, id), data),
            metas: self.metas.insert((collection, id), meta),
            bloom: self.bloom.union(key_probes(collection, id, self.seed)),
            indexes: self.indexes.insert(
                collection,
                upserted(self.index(collection), entry_of(id, meta)),
            ),
            stats: updated(
                self.stats_without(collection, id),
                data.len() as u64,
                (data.len() * ORIGINAL_SIZE_FACTOR) as u64,
                true,
                zone == StorageZone::Hot,
            ),
            ..self
        }
    }

    /// The state after the first `count` entries of a batch were written, in
    /// order, each into the hot zone.
    pub open spec fn with_batch(
        self,
        collections: Seq<Vec<u8>>,
        ids: Seq<Vec<u8>>,
        values: Seq<Vec<u8>>,
        count: nat,
        now: u64,
    ) -> VaultState
        decreases count,
    {
        if count == 0 {
            self
        } else {
            let n = (count - 1) as nat;
            self.with_batch(collections, ids, values, n, now).with_chunk(
                collections[n as int]@,
                ids[n as int]@,
                values[n as int]@,
                StorageZone::Hot,
                now,
            )
        }
    }

    /// Whether each of the first `count` entries of a batch can be written
    /// when its turn comes.
    pub open spec fn batch_fits(
        self,
        collections: Seq<Vec<u8>>,
        ids: Seq<Vec<u8>>,
        values: Seq<Vec<u8>>,
        count: nat,
        now: u64,
    ) -> bool {
        forall|n: nat|
            n < count ==> (#[trigger] self.with_batch(collections, ids, values, n, now)).write_fits(
                collections[n as int]@,
                ids[n as int]@,
                values[n as int]@.len(),
                StorageZone::Hot,
            )
    }

    /// Whether a patch can be logged for the chunk: its version has a successor.
    pub open spec fn delta_fits(self, collection: Seq<u8>, id: Seq<u8>) -> bool {
        self.metas.contains_key((collection, id)) ==> self.metas[(collection, id)].version
            < u32::MAX
    }

    /// The metadata of a chunk after one more patch: the next version and
    /// the new time.
    pub open spec fn bumped(meta: ChunkMeta, now: u64) -> ChunkMeta {
        ChunkMeta { version: (meta.version + 1) as u32, updated_at: now, ..meta }
    }

    /// The state after a patch was logged for a chunk: the patch is last in
    /// the chunk's log. Where the chunk has metadata, the metadata has the
    /// next version and the new time, and the index entry is rewritten from
    /// it. The payload is not touched.
    pub open spec fn with_delta(
        self,
        collection: Seq<u8>,
        id: Seq<u8>,
        patch: Seq<u8>,
        now: u64,
    ) -> VaultState {
        let key = (collection, id);
        let logged = VaultState {
            deltas: self.deltas.insert(key, self.delta_log(collection, id).push(patch)),
            ..self
        };
        if self.metas.contains_key(key) {
            let meta = Self::bumped(self.metas[key], now);
            VaultState {
                metas: self.metas.insert(key, meta),
                indexes: self.indexes.insert(
                    collection,
                    upserted(self.index(collection), entry_of(id, meta)),
                ),
                ..logged
            }
        } else {
            logged
        }
    }

    /// Whether a migration changes anything: the chunk has metadata and is
    /// not in the cold zone yet.
    pub open spec fn migrates(self, collection: Seq<u8>, id: Seq<u8>) -> bool {
        self.metas.contains_key((collection, id)) && self.metas[(collection, id)].zone
            != StorageZone::Cold
    }

    /// Whether the chunk can be migrated: the cold count has room.
    pub open spec fn migrate_fits(self, collection: Seq<u8>, id: Seq<u8>) -> bool {
        self.migrates(collection, id) ==> self.stats.cold_entries < u32::MAX
    }

    /// The state after a migration to the cold zone. Nothing changes when
    /// the chunk has no metadata or is cold already. Else the metadata gets
    /// the cold zone and the new time, the index entry is rewritten, and one
    /// chunk moves from the hot count to the cold count.
    pub open spec fn migrated(self, collection: Seq<u8>, id: Seq<u8>, now: u64) -> VaultState {
        let key = (collection, id);
        if self.migrates(collection, id) {
            let meta = ChunkMeta { zone: StorageZone::Cold, updated_at: now, ..self.metas[key] };
            VaultState {
                metas: self.metas.insert(key, meta),
                indexes: self.indexes.insert(
                    collection,
                    upserted(self.index(collection), entry_of(id, meta)),
                ),
                stats: moved_to_cold(self.stats),
                ..self
            }
        } else {
            self
        }
    }

    /// Whether the chunk can be deleted: the statistics can be recomputed
    /// without it.
    pub open spec fn delete_fits(self, collection: Seq<u8>, id: Seq<u8>) -> bool {
        let key = (collection, id);
        self.metas.contains_key(key) ==> share_fits(self.stats, self.metas[key])
    }

    /// The state after a delete: payload, metadata and delta log are gone.
    /// Where there was metadata, the collection's index loses its entries of
    /// the id and the statistics count one chunk less. The filter keeps the key.
    pub open spec fn deleted(self, collection: Seq<u8>, id: Seq<u8>) -> VaultState {
        let key = (collection, id);
        VaultState {
            chunks: self.chunks.remove(key),
            metas: self.metas.remove(key),
            deltas: self.deltas.remove(key),
            indexes: if self.metas.contains_key(key) {
                self.indexes.insert(collection, removed(self.index(collection), id))
            } else {
                self.indexes
            },
            stats: self.stats_without(collection, id),
            ..self
        }
    }
}

} // verus!

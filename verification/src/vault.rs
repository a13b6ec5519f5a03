//! The engine: chunk store, Bloom filter, collection index, delta log, zone
//! manager and statistics behind one set of operations.

use vstd::prelude::*;
use vstd::slice::slice_to_vec;
use crate::bloom::{bloom_add, bloom_test_internal, BloomFilter};
use crate::hash::simple_hash;
use crate::index::{index_remove, index_upsert, upserted};
use crate::laws::{
    law_batch_logs, law_consistent_in_range, law_delete_consistent, law_delta_consistent,
    law_empty_consistent, law_initialize_consistent, law_logs_match_versions,
    law_migrate_consistent, law_statistics_consistent, law_write_consistent,
};
use crate::model::{
    patch_views, share_fits, size_sum, without_share, ChunkKey, VaultState, ORIGINAL_SIZE_FACTOR,
};
use crate::stats::{stats_migrate, stats_update, update_is_in_range, zero_stats};
use crate::store::Table;
use crate::types::{
    entry_of, entry_views, ChunkMeta, CompressionAlgo, DataKey, IndexEntry, IndexEntryView,
    KeyView, StorageStats, StorageZone, VaultError,
};

verus! {

/// The vault. Every mutating operation names its caller and is refused
/// unless the caller is the administrator; a refused operation changes
/// nothing.
pub struct SeireiteiVault {
    admin: Option<String>,
    chunks: Table<Vec<u8>>,
    metas: Table<ChunkMeta>,
    deltas: Table<Vec<Vec<u8>>>,
    indexes: Table<Vec<IndexEntry>>,
    bloom: BloomFilter,
    stats: StorageStats,
}

/// The payloads of a chunk table, by chunk key.
spec fn payloads(table: Map<KeyView, Vec<u8>>) -> Map<ChunkKey, Seq<u8>> {
    Map::new(
        |k: ChunkKey| table.contains_key(KeyView::Chunk(k.0, k.1)),
        |k: ChunkKey| table[KeyView::Chunk(k.0, k.1)]@,
    )
}

/// The records of a metadata table, by chunk key.
spec fn metadata(table: Map<KeyView, ChunkMeta>) -> Map<ChunkKey, ChunkMeta> {
    Map::new(
        |k: ChunkKey| table.contains_key(KeyView::Meta(k.0, k.1)),
        |k: ChunkKey| table[KeyView::Meta(k.0, k.1)],
    )
}

/// The logs of a delta table, by chunk key.
spec fn logs(table: Map<KeyView, Vec<Vec<u8>>>) -> Map<ChunkKey, Seq<Seq<u8>>> {
    Map::new(
        |k: ChunkKey| table.contains_key(KeyView::DeltaLog(k.0, k.1)),
        |k: ChunkKey| patch_views(table[KeyView::DeltaLog(k.0, k.1)]@),
    )
}

/// The lists of an index table, by collection.
spec fn listings(table: Map<KeyView, Vec<IndexEntry>>) -> Map<Seq<u8>, Seq<IndexEntryView>> {
    Map::new(
        |c: Seq<u8>| table.contains_key(KeyView::CollectionIndex(c)),
        |c: Seq<u8>| entry_views(table[KeyView::CollectionIndex(c)]@),
    )
}

/// Copies a list of index entries.
fn copy_entries(entries: &Vec<IndexEntry>) -> (copy: Vec<IndexEntry>)
    ensures
        entry_views(copy@) == entry_views(entries@),
{
    let mut copy: Vec<IndexEntry> = Vec::new();
    let mut i: usize = 0;
    while i < entries.len()
        invariant
            i <= entries.len(),
            copy@.len() == i,
            forall|k: int| 0 <= k < i ==> (#[trigger] copy@[k])@ == entries@[k]@,
        decreases entries.len() - i,
    {
        copy.push(entries[i].duplicate());
        i += 1;
    }
    proof {
        assert(entry_views(copy@) =~= entry_views(entries@));
    }
    copy
}

/// Copies a list of patches.
fn copy_patches(patches: &Vec<Vec<u8>>) -> (copy: Vec<Vec<u8>>)
    ensures
        patch_views(copy@) == patch_views(patches@),
{
    let mut copy: Vec<Vec<u8>> = Vec::new();
    let mut i: usize = 0;
    while i < patches.len()
        invariant
            i <= patches.len(),
            copy@.len() == i,
            forall|k: int| 0 <= k < i ==> (#[trigger] copy@[k])@ == patches@[k]@,
        decreases patches.len() - i,
    {
        copy.push(slice_to_vec(patches[i].as_slice()));
        i += 1;
    }
    proof {
        assert(patch_views(copy@) =~= patch_views(patches@));
    }
    copy
}

/// The metadata under a key where a table of newer metadata lies over a vault's.
spec fn overlaid(
    newer: Map<KeyView, ChunkMeta>,
    vault: VaultState,
    collection: Seq<u8>,
    id: Seq<u8>,
) -> Option<ChunkMeta> {
    if newer.contains_key(KeyView::Meta(collection, id)) {
        Some(newer[KeyView::Meta(collection, id)])
    } else {
        vault.meta(collection, id)
    }
}

/// Whether the zone is the hot one.
fn is_hot(zone: StorageZone) -> (hot: bool)
    ensures
        hot == (zone == StorageZone::Hot),
{
    match zone {
        StorageZone::Hot => true,
        StorageZone::Cold => false,
    }
}

/// Whether the share of a chunk with this metadata can be taken out of the
/// statistics.
fn share_is_in_range(stats: &StorageStats, meta: &ChunkMeta) -> (fits: bool)
    ensures
        fits == share_fits(*stats, *meta),
{
    update_is_in_range(
        stats,
        meta.compressed_size as u64,
        meta.original_size as u64,
        false,
        is_hot(meta.zone),
    )
}

/// Takes the share of a chunk with this metadata out of the statistics.
fn take_share(stats: &mut StorageStats, meta: &ChunkMeta)
    requires
        share_fits(*old(stats), *meta),
    ensures
        *final(stats) == without_share(*old(stats), *meta),
{
    stats_update(
        stats,
        meta.compressed_size as u64,
        meta.original_size as u64,
        false,
        is_hot(meta.zone),
    );
}

impl SeireiteiVault {
    /// Everything the vault holds.
    pub closed spec fn view(&self) -> VaultState {
        VaultState {
            admin: match self.admin {
                Some(admin) => Some(admin@),
                None => None,
            },
            chunks: payloads(self.chunks@),
            metas: metadata(self.metas@),
            deltas: logs(self.deltas@),
            indexes: listings(self.indexes@),
            bloom: self.bloom.positions(),
            seed: self.bloom.seed,
            stats: self.stats,
        }
    }

    /// A vault that holds nothing and has no administrator yet.
    pub fn new() -> (vault: SeireiteiVault)
        ensures
            vault@ == VaultState::empty(),
            vault@.consistent(),
            vault@.logs_match_versions(),
    {
        proof {
            law_empty_consistent();
        }
        SeireiteiVault::from_parts(None, BloomFilter::new(), zero_stats())
    }

    /// A vault with this administrator, filter and statistics and no record
    /// yet: the start of a vault that is rebuilt from what was persisted.
    pub fn from_parts(admin: Option<String>, bloom: BloomFilter, stats: StorageStats) -> (vault:
        SeireiteiVault)
        ensures
            vault@ == (VaultState {
                admin: match admin {
                    Some(name) => Some(name@),
                    None => None,
                },
                bloom: bloom.positions(),
                seed: bloom.seed,
                stats,
                ..VaultState::empty()
            }),
    {
        let vault = SeireiteiVault {
            admin,
            chunks: Table::new(),
            metas: Table::new(),
            deltas: Table::new(),
            indexes: Table::new(),
            bloom,
            stats,
        };
        proof {
            assert(vault@.chunks =~= Map::empty());
            assert(vault@.metas =~= Map::empty());
            assert(vault@.deltas =~= Map::empty());
            assert(vault@.indexes =~= Map::empty());
        }
        vault
    }

    /// Puts a persisted payload back under its key. Nothing else changes.
    pub fn load_chunk(&mut self, collection: &[u8], id: &[u8], data: &[u8])
        ensures
            final(self)@ == (VaultState {
                chunks: old(self)@.chunks.insert((collection@, id@), data@),
                ..old(self)@
            }),
    {
        self.chunks.set(DataKey::Chunk(slice_to_vec(collection), slice_to_vec(id)), slice_to_vec(data));
        proof {
            assert(self@.chunks =~= old(self)@.chunks.insert((collection@, id@), data@));
        }
    }

    /// Puts persisted metadata back under its key. Nothing else changes.
    pub fn load_meta(&mut self, collection: &[u8], id: &[u8], meta: ChunkMeta)
        ensures
            final(self)@ == (VaultState {
                metas: old(self)@.metas.insert((collection@, id@), meta),
                ..old(self)@
            }),
    {
        self.metas.set(DataKey::Meta(slice_to_vec(collection), slice_to_vec(id)), meta);
        proof {
            assert(self@.metas =~= old(self)@.metas.insert((collection@, id@), meta));
        }
    }

    /// Puts a persisted delta log back under its key. Nothing else changes.
    pub fn load_deltas(&mut self, collection: &[u8], id: &[u8], patches: Vec<Vec<u8>>)
        ensures
            final(self)@ == (VaultState {
                deltas: old(self)@.deltas.insert((collection@, id@), patch_views(patches@)),
                ..old(self)@
            }),
    {
        self.deltas.set(DataKey::DeltaLog(slice_to_vec(collection), slice_to_vec(id)), patches);
        proof {
            assert(self@.deltas =~= old(self)@.deltas.insert(
                (collection@, id@),
                patch_views(patches@),
            ));
        }
    }

    /// Puts a persisted collection index back. Nothing else changes.
    pub fn load_index(&mut self, collection: &[u8], entries: Vec<IndexEntry>)
        ensures
            final(self)@ == (VaultState {
                indexes: old(self)@.indexes.insert(collection@, entry_views(entries@)),
                ..old(self)@
            }),
    {
        self.indexes.set(DataKey::CollectionIndex(slice_to_vec(collection)), entries);
        proof {
            assert(self@.indexes =~= old(self)@.indexes.insert(collection@, entry_views(entries@)));
        }
    }

    /// The administrator, once the vault is initialized.
    pub fn admin(&self) -> (admin: Option<String>)
        ensures
            match admin {
                Some(name) => self@.admin == Some(name@),
                None => self@.admin is None,
            },
    {
        match &self.admin {
            Some(name) => Some(name.clone()),
            None => None,
        }
    }

    /// The Bloom filter as it stands.
    pub fn bloom(&self) -> (filter: BloomFilter)
        ensures
            filter.positions() == self@.bloom,
            filter.seed == self@.seed,
    {
        self.bloom
    }

    /// Whether a delta log is kept for the chunk, be it empty.
    pub fn has_deltas(&self, collection: &[u8], id: &[u8]) -> (kept: bool)
        ensures
            kept == self@.deltas.contains_key((collection@, id@)),
    {
        self.deltas.contains(&DataKey::DeltaLog(slice_to_vec(collection), slice_to_vec(id)))
    }

    /// Whether an index is kept for the collection, be it empty.
    pub fn has_index(&self, collection: &[u8]) -> (kept: bool)
        ensures
            kept == self@.indexes.contains_key(collection@),
    {
        self.indexes.contains(&DataKey::CollectionIndex(slice_to_vec(collection)))
    }

    /// Whether a payload of this length can be written under this key into
    /// this zone.
    pub fn write_is_in_range(&self, collection: &[u8], id: &[u8], len: usize, zone: StorageZone) -> (fits:
        bool)
        ensures
            fits == self@.write_fits(collection@, id@, len as nat, zone),
    {
        if len > (u32::MAX / ORIGINAL_SIZE_FACTOR) as usize {
            return false;
        }
        let mut stats: StorageStats = self.stats;
        match self.get_meta(collection, id) {
            Some(replaced) => {
                if !share_is_in_range(&stats, &replaced) {
                    return false;
                }
                take_share(&mut stats, &replaced);
            },
            None => {},
        }
        update_is_in_range(
            &stats,
            len as u64,
            (len as u64) * (ORIGINAL_SIZE_FACTOR as u64),
            true,
            is_hot(zone),
        )
    }

    /// Whether each payload of a batch can be written when its turn comes.
    /// A batch of sequences of unequal lengths writes nothing, and is in range.
    pub fn batch_is_in_range(
        &self,
        collections: &Vec<Vec<u8>>,
        ids: &Vec<Vec<u8>>,
        values: &Vec<Vec<u8>>,
        now: u64,
    ) -> (fits: bool)
        ensures
            fits == (collections@.len() == values@.len() && ids@.len() == values@.len()
                ==> self@.batch_fits(collections@, ids@, values@, values@.len(), now)),
    {
        if collections.len() != values.len() || ids.len() != values.len() {
            return true;
        }
        let mut stats: StorageStats = self.stats;
        let mut metas: Table<ChunkMeta> = Table::new();
        let mut i: usize = 0;
        while i < values.len()
            invariant
                i <= values.len(),
                collections@.len() == values@.len(),
                ids@.len() == values@.len(),
                stats == self@.with_batch(collections@, ids@, values@, i as nat, now).stats,
                forall|c: Seq<u8>, d: Seq<u8>|
                    #[trigger] self@.with_batch(collections@, ids@, values@, i as nat, now).meta(
                        c,
                        d,
                    ) == overlaid(metas@, self@, c, d),
                self@.batch_fits(collections@, ids@, values@, i as nat, now),
            decreases values.len() - i,
        {
            let collection = collections[i].as_slice();
            let id = ids[i].as_slice();
            let len: usize = values[i].len();
            let ghost reached = self@.with_batch(collections@, ids@, values@, i as nat, now);
            let key = DataKey::Meta(slice_to_vec(collection), slice_to_vec(id));
            let replaced: Option<ChunkMeta> = match metas.get(&key) {
                Some(meta) => Some(*meta),
                None => self.get_meta(collection, id),
            };
            proof {
                assert(reached.meta(collection@, id@) == overlaid(metas@, self@, collection@, id@));
            }
            if len > (u32::MAX / ORIGINAL_SIZE_FACTOR) as usize {
                proof {
                    assert(!reached.write_fits(
                        collection@,
                        id@,
                        values@[i as int]@.len(),
                        StorageZone::Hot,
                    ));
                }
                return false;
            }
            match replaced {
                Some(meta) => {
                    if !share_is_in_range(&stats, &meta) {
                        proof {
                            assert(!reached.write_fits(
                                collection@,
                                id@,
                                values@[i as int]@.len(),
                                StorageZone::Hot,
                            ));
                        }
                        return false;
                    }
                    take_share(&mut stats, &meta);
                },
                None => {},
            }
            if !update_is_in_range(
                &stats,
                len as u64,
                (len as u64) * (ORIGINAL_SIZE_FACTOR as u64),
                true,
                true,
            ) {
                proof {
                    assert(!reached.write_fits(
                        collection@,
                        id@,
                        values@[i as int]@.len(),
                        StorageZone::Hot,
                    ));
                }
                return false;
            }
            stats_update(
                &mut stats,
                len as u64,
                (len as u64) * (ORIGINAL_SIZE_FACTOR as u64),
                true,
                true,
            );
            let data_len: u32 = len as u32;
            let ghost before = metas@;
            metas.set(
                key,
                ChunkMeta {
                    compression: CompressionAlgo::Zstd,
                    original_size: data_len * ORIGINAL_SIZE_FACTOR,
                    compressed_size: data_len,
                    checksum: simple_hash(values[i].as_slice()),
                    zone: StorageZone::Hot,
                    version: 1,
                    created_at: now,
                    updated_at: now,
                },
            );
            proof {
                assert(reached.write_fits(
                    collection@,
                    id@,
                    values@[i as int]@.len(),
                    StorageZone::Hot,
                ));
                let next = self@.with_batch(collections@, ids@, values@, (i + 1) as nat, now);
                assert forall|c: Seq<u8>, d: Seq<u8>| #[trigger]
                    next.meta(c, d) == overlaid(metas@, self@, c, d) by {
                    assert(reached.meta(c, d) == overlaid(before, self@, c, d));
                }
                assert forall|n: nat| n < i + 1 implies (#[trigger] self@.with_batch(
                    collections@,
                    ids@,
                    values@,
                    n,
                    now,
                )).write_fits(
                    collections@[n as int]@,
                    ids@[n as int]@,
                    values@[n as int]@.len(),
                    StorageZone::Hot,
                ) by {
                    if n < i {
                    } else {
                        assert(n == i);
                    }
                }
            }
            i += 1;
        }
        true
    }

    /// Whether a patch can be logged for the chunk.
    pub fn delta_is_in_range(&self, collection: &[u8], id: &[u8]) -> (fits: bool)
        ensures
            fits == self@.delta_fits(collection@, id@),
    {
        match self.metas.get(&DataKey::Meta(slice_to_vec(collection), slice_to_vec(id))) {
            Some(meta) => meta.version < u32::MAX,
            None => true,
        }
    }

    /// Whether the chunk can be migrated to the cold zone.
    pub fn migration_is_in_range(&self, collection: &[u8], id: &[u8]) -> (fits: bool)
        ensures
            fits == self@.migrate_fits(collection@, id@),
    {
        match self.metas.get(&DataKey::Meta(slice_to_vec(collection), slice_to_vec(id))) {
            Some(meta) => meta.zone == StorageZone::Cold || self.stats.cold_entries < u32::MAX,
            None => true,
        }
    }

    /// Whether the chunk can be deleted.
    pub fn delete_is_in_range(&self, collection: &[u8], id: &[u8]) -> (fits: bool)
        ensures
            fits == self@.delete_fits(collection@, id@),
    {
        match self.metas.get(&DataKey::Meta(slice_to_vec(collection), slice_to_vec(id))) {
            Some(meta) => share_is_in_range(&self.stats, meta),
            None => true,
        }
    }

    /// Sets the administrator and starts the filter and the statistics from
    /// nothing. A vault is initialized once.
    pub fn initialize(&mut self, admin: &str) -> (done: Result<(), VaultError>)
        ensures
            match done {
                Ok(_) => old(self)@.admin is None && final(self)@ == old(self)@.initialized(
                    admin@,
                ),
                Err(e) => e == VaultError::AlreadyInitialized && old(self)@.admin is Some
                    && final(self)@ == old(self)@,
            },
            old(self)@.consistent() ==> final(self)@.consistent(),
            old(self)@.logs_match_versions() ==> final(self)@.logs_match_versions(),
    {
        if self.admin.is_some() {
            return Err(VaultError::AlreadyInitialized);
        }
        self.admin = Some(admin.to_owned());
        self.bloom = BloomFilter::new();
        self.stats = zero_stats();
        proof {
            if old(self)@.consistent() {
                law_initialize_consistent(old(self)@, admin@);
            }
            if old(self)@.logs_match_versions() {
                assert forall|c: Seq<u8>, i: Seq<u8>| #[trigger]
                    self@.metas.contains_key((c, i)) implies self@.delta_log(c, i).len()
                    == self@.metas[(c, i)].version - 1 by {
                    assert(old(self)@.metas.contains_key((c, i)));
                }
            }
        }
        Ok(())
    }

    /// Checks that the vault has an administrator and that `caller` is it.
    fn authorize(&self, caller: &str) -> (allowed: Result<(), VaultError>)
        ensures
            match allowed {
                Ok(_) => self@.refusal(caller@) is None,
                Err(e) => self@.refusal(caller@) == Some(e),
            },
    {
        match &self.admin {
            None => Err(VaultError::NotInitialized),
            Some(admin) => {
                let claimed: String = caller.to_owned();
                if *admin == claimed {
                    Ok(())
                } else {
                    Err(VaultError::Unauthorized)
                }
            },
        }
    }

    /// Removes the payload under a key. Nothing else changes.
    fn drop_chunk(&mut self, collection: &[u8], id: &[u8])
        ensures
            final(self)@ == (VaultState {
                chunks: old(self)@.chunks.remove((collection@, id@)),
                ..old(self)@
            }),
    {
        self.chunks.remove(&DataKey::Chunk(slice_to_vec(collection), slice_to_vec(id)));
        proof {
            assert(self@.chunks =~= old(self)@.chunks.remove((collection@, id@)));
        }
    }

    /// Removes the metadata under a key. Nothing else changes.
    fn drop_meta(&mut self, collection: &[u8], id: &[u8])
        ensures
            final(self)@ == (VaultState {
                metas: old(self)@.metas.remove((collection@, id@)),
                ..old(self)@
            }),
    {
        self.metas.remove(&DataKey::Meta(slice_to_vec(collection), slice_to_vec(id)));
        proof {
            assert(self@.metas =~= old(self)@.metas.remove((collection@, id@)));
        }
    }

    /// Removes the delta log under a key. Nothing else changes.
    fn drop_deltas(&mut self, collection: &[u8], id: &[u8])
        ensures
            final(self)@ == (VaultState {
                deltas: old(self)@.deltas.remove((collection@, id@)),
                ..old(self)@
            }),
    {
        self.deltas.remove(&DataKey::DeltaLog(slice_to_vec(collection), slice_to_vec(id)));
        proof {
            assert(self@.deltas =~= old(self)@.deltas.remove((collection@, id@)));
        }
    }

    /// Writes the index entry of a chunk from its metadata.
    fn list(&mut self, collection: &[u8], id: &[u8], meta: &ChunkMeta)
        ensures
            final(self)@ == (VaultState {
                indexes: old(self)@.indexes.insert(
                    collection@,
                    upserted(old(self)@.index(collection@), entry_of(id@, *meta)),
                ),
                ..old(self)@
            }),
    {
        let mut index = self.get_index(collection);
        index_upsert(&mut index, id, meta);
        self.load_index(collection, index);
    }

    /// Writes a payload with fresh metadata, then updates the filter, the
    /// collection's index and the statistics, in that order. The statistics
    /// lose the share of the chunk that is replaced, if there is one.
    fn write(&mut self, collection: &[u8], id: &[u8], data: &[u8], zone: StorageZone, now: u64)
        requires
            old(self)@.write_fits(collection@, id@, data@.len(), zone),
        ensures
            final(self)@ == old(self)@.with_chunk(collection@, id@, data@, zone, now),
            old(self)@.consistent() && old(self)@.admin is Some ==> final(self)@.consistent(),
            old(self)@.logs_match_versions() && old(self)@.delta_log(collection@, id@).len() == 0
                ==> final(self)@.logs_match_versions(),
    {
        let replaced = self.get_meta(collection, id);
        let data_len: u32 = data.len() as u32;
        let meta = ChunkMeta {
            compression: CompressionAlgo::Zstd,
            original_size: data_len * ORIGINAL_SIZE_FACTOR,
            compressed_size: data_len,
            checksum: simple_hash(data),
            zone,
            version: 1,
            created_at: now,
            updated_at: now,
        };
        self.load_chunk(collection, id, data);
        self.load_meta(collection, id, meta);
        bloom_add(&mut self.bloom, collection, id);
        self.list(collection, id, &meta);
        match replaced {
            Some(old_meta) => {
                take_share(&mut self.stats, &old_meta);
            },
            None => {},
        }
        stats_update(
            &mut self.stats,
            data_len as u64,
            meta.original_size as u64,
            true,
            is_hot(zone),
        );
        proof {
            if old(self)@.consistent() && old(self)@.admin is Some {
                law_write_consistent(old(self)@, collection@, id@, data@, zone, now);
            }
            if old(self)@.logs_match_versions() {
                law_logs_match_versions(old(self)@, collection@, id@, data@, zone, now);
            }
        }
    }

    /// Stores a payload in the hot zone, in place of what the key held.
    pub fn put(&mut self, caller: &str, collection: &[u8], id: &[u8], data: &[u8], now: u64) -> (done:
        Result<(), VaultError>)
        requires
            old(self)@.refusal(caller@) is None ==> old(self)@.write_fits(
                collection@,
                id@,
                data@.len(),
                StorageZone::Hot,
            ),
        ensures
            match done {
                Ok(_) => old(self)@.refusal(caller@) is None && final(self)@ == old(
                    self)@.with_chunk(collection@, id@, data@, StorageZone::Hot, now),
                Err(e) => old(self)@.refusal(caller@) == Some(e) && final(self)@ == old(self)@,
            },
            old(self)@.consistent() ==> final(self)@.consistent(),
            old(self)@.logs_match_versions() && old(self)@.delta_log(collection@, id@).len() == 0
                ==> final(self)@.logs_match_versions(),
    {
        match self.authorize(caller) {
            Err(e) => {
                return Err(e);
            },
            Ok(_) => {},
        }
        self.write(collection, id, data, StorageZone::Hot, now);
        Ok(())
    }

    /// Stores a payload in the given zone, in place of what the key held.
    pub fn put_zone(
        &mut self,
        caller: &str,
        collection: &[u8],
        id: &[u8],
        data: &[u8],
        zone: StorageZone,
        now: u64,
    ) -> (done: Result<(), VaultError>)
        requires
            old(self)@.refusal(caller@) is None ==> old(self)@.write_fits(
                collection@,
                id@,
                data@.len(),
                zone,
            ),
        ensures
            match done {
                Ok(_) => old(self)@.refusal(caller@) is None && final(self)@ == old(
                    self)@.with_chunk(collection@, id@, data@, zone, now),
                Err(e) => old(self)@.refusal(caller@) == Some(e) && final(self)@ == old(self)@,
            },
            old(self)@.consistent() ==> final(self)@.consistent(),
            old(self)@.logs_match_versions() && old(self)@.delta_log(collection@, id@).len() == 0
                ==> final(self)@.logs_match_versions(),
    {
        match self.authorize(caller) {
            Err(e) => {
                return Err(e);
            },
            Ok(_) => {},
        }
        self.write(collection, id, data, zone, now);
        Ok(())
    }

    /// Stores a batch of payloads in the hot zone, in order. The three
    /// sequences must be equally long, else nothing is written.
    pub fn batch_put(
        &mut self,
        caller: &str,
        collections: &Vec<Vec<u8>>,
        ids: &Vec<Vec<u8>>,
        values: &Vec<Vec<u8>>,
        now: u64,
    ) -> (done: Result<(), VaultError>)
        requires
            old(self)@.batch_refusal(caller@, collections@.len(), ids@.len(), values@.len())
                is None ==> old(self)@.batch_fits(
                collections@,
                ids@,
                values@,
                collections@.len(),
                now,
            ),
        ensures
            match done {
                Ok(_) => old(self)@.batch_refusal(
                    caller@,
                    collections@.len(),
                    ids@.len(),
                    values@.len(),
                ) is None && final(self)@ == old(self)@.with_batch(
                    collections@,
                    ids@,
                    values@,
                    collections@.len(),
                    now,
                ),
                Err(e) => old(self)@.batch_refusal(
                    caller@,
                    collections@.len(),
                    ids@.len(),
                    values@.len(),
                ) == Some(e) && final(self)@ == old(self)@,
            },
            old(self)@.consistent() ==> final(self)@.consistent(),
            old(self)@.logs_match_versions() && (forall|n: nat|
                n < collections@.len() ==> (#[trigger] old(self)@.delta_log(
                    collections@[n as int]@,
                    ids@[n as int]@,
                )).len() == 0) ==> final(self)@.logs_match_versions(),
    {
        match self.authorize(caller) {
            Err(e) => {
                return Err(e);
            },
            Ok(_) => {},
        }
        let count: usize = collections.len();
        if count != ids.len() || count != values.len() {
            return Err(VaultError::SizeMismatch);
        }
        let mut i: usize = 0;
        while i < count
            invariant
                i <= count,
                count == collections@.len(),
                count == ids@.len(),
                count == values@.len(),
                old(self)@.batch_fits(collections@, ids@, values@, count as nat, now),
                self@ == old(self)@.with_batch(collections@, ids@, values@, i as nat, now),
                self@.admin is Some,
                old(self)@.consistent() ==> self@.consistent(),
            decreases count - i,
        {
            self.write(
                collections[i].as_slice(),
                ids[i].as_slice(),
                values[i].as_slice(),
                StorageZone::Hot,
                now,
            );
            i += 1;
        }
        proof {
            if old(self)@.logs_match_versions() && (forall|n: nat|
                n < collections@.len() ==> (#[trigger] old(self)@.delta_log(
                    collections@[n as int]@,
                    ids@[n as int]@,
                )).len() == 0) {
                law_batch_logs(old(self)@, collections@, ids@, values@, count as nat, now);
            }
        }
        Ok(())
    }

    /// Logs a patch for an existing chunk, gives its metadata the next
    /// version and rewrites its index entry from it. The patch is kept as
    /// it is; the payload is not touched.
    pub fn delta_update(&mut self, caller: &str, collection: &[u8], id: &[u8], patch: &[u8], now: u64)
        -> (done: Result<(), VaultError>)
        requires
            old(self)@.delta_refusal(caller@, collection@, id@) is None ==> old(self)@.delta_fits(
                collection@,
                id@,
            ),
        ensures
            match done {
                Ok(_) => old(self)@.delta_refusal(caller@, collection@, id@) is None && final(
                    self)@ == old(self)@.with_delta(collection@, id@, patch@, now),
                Err(e) => old(self)@.delta_refusal(caller@, collection@, id@) == Some(e) && final(
                    self)@ == old(self)@,
            },
            old(self)@.consistent() ==> final(self)@.consistent(),
            old(self)@.logs_match_versions() && old(self)@.meta(collection@, id@) is Some
                ==> final(self)@.logs_match_versions(),
    {
        match self.authorize(caller) {
            Err(e) => {
                return Err(e);
            },
            Ok(_) => {},
        }
        if !self.has(collection, id) {
            return Err(VaultError::NotFound);
        }
        let mut log = self.get_deltas(collection, id);
        let ghost before = patch_views(log@);
        log.push(slice_to_vec(patch));
        proof {
            assert(patch_views(log@) =~= before.push(patch@));
        }
        self.load_deltas(collection, id, log);
        match self.get_meta(collection, id) {
            Some(meta) => {
                let mut meta = meta;
                meta.version += 1;
                meta.updated_at = now;
                self.load_meta(collection, id, meta);
                self.list(collection, id, &meta);
            },
            None => {},
        }
        proof {
            if old(self)@.consistent() {
                law_delta_consistent(old(self)@, collection@, id@, patch@, now);
            }
            if old(self)@.logs_match_versions() {
                law_logs_match_versions(
                    old(self)@,
                    collection@,
                    id@,
                    patch@,
                    StorageZone::Hot,
                    now,
                );
            }
        }
        Ok(())
    }

    /// The payload of a chunk; empty when the chunk does not exist.
    pub fn get(&self, collection: &[u8], id: &[u8]) -> (data: Vec<u8>)
        ensures
            data@ == self@.payload(collection@, id@),
    {
        match self.chunks.get(&DataKey::Chunk(slice_to_vec(collection), slice_to_vec(id))) {
            Some(data) => slice_to_vec(data.as_slice()),
            None => Vec::new(),
        }
    }

    /// The metadata of a chunk, without its payload.
    pub fn get_meta(&self, collection: &[u8], id: &[u8]) -> (meta: Option<ChunkMeta>)
        ensures
            meta == self@.meta(collection@, id@),
    {
        match self.metas.get(&DataKey::Meta(slice_to_vec(collection), slice_to_vec(id))) {
            Some(meta) => Some(*meta),
            None => None,
        }
    }

    /// The patches logged for a chunk, oldest first.
    pub fn get_deltas(&self, collection: &[u8], id: &[u8]) -> (patches: Vec<Vec<u8>>)
        ensures
            patch_views(patches@) == self@.delta_log(collection@, id@),
    {
        match self.deltas.get(&DataKey::DeltaLog(slice_to_vec(collection), slice_to_vec(id))) {
            Some(patches) => copy_patches(patches),
            None => {
                let none: Vec<Vec<u8>> = Vec::new();
                proof {
                    assert(patch_views(none@) =~= Seq::<Seq<u8>>::empty());
                }
                none
            },
        }
    }

    /// Asks the Bloom filter about a key. `false` means the key was never
    /// stored; `true` means it probably was.
    pub fn bloom_check(&self, collection: &[u8], id: &[u8]) -> (present: bool)
        ensures
            present == self@.bloom_check(collection@, id@),
            self@.consistent() && self@.has(collection@, id@) ==> present,
    {
        bloom_test_internal(&self.bloom.bits, collection, id, self.bloom.seed)
    }

    /// Whether a chunk exists.
    pub fn has(&self, collection: &[u8], id: &[u8]) -> (exists: bool)
        ensures
            exists == self@.has(collection@, id@),
    {
        self.chunks.contains(&DataKey::Chunk(slice_to_vec(collection), slice_to_vec(id)))
    }

    /// The index of a collection, in the order the entries were first written.
    pub fn get_index(&self, collection: &[u8]) -> (index: Vec<IndexEntry>)
        ensures
            entry_views(index@) == self@.index(collection@),
    {
        match self.indexes.get(&DataKey::CollectionIndex(slice_to_vec(collection))) {
            Some(entries) => copy_entries(entries),
            None => {
                let none: Vec<IndexEntry> = Vec::new();
                proof {
                    assert(entry_views(none@) =~= Seq::<IndexEntryView>::empty());
                }
                none
            },
        }
    }

    /// The storage statistics. In a consistent vault they count and sum
    /// exactly the chunks that exist.
    pub fn get_stats(&self) -> (stats: StorageStats)
        ensures
            stats == self@.stats,
            self@.consistent() ==> stats.total_entries == self@.chunks.dom().len()
                && stats.hot_entries + stats.cold_entries == stats.total_entries
                && stats.hot_entries == self@.zone_keys(StorageZone::Hot).len()
                && stats.total_bytes_stored == size_sum(self@.metas, false)
                && stats.total_bytes_original == size_sum(self@.metas, true),
    {
        proof {
            if self@.consistent() {
                law_statistics_consistent(self@);
            }
        }
        self.stats
    }

    /// Moves a chunk to the cold zone. Nothing happens when the chunk has
    /// no metadata or is cold already.
    pub fn migrate_to_cold(&mut self, caller: &str, collection: &[u8], id: &[u8], now: u64) -> (done:
        Result<(), VaultError>)
        requires
            old(self)@.refusal(caller@) is None ==> old(self)@.consistent() || old(
                self)@.migrate_fits(collection@, id@),
        ensures
            match done {
                Ok(_) => old(self)@.refusal(caller@) is None && final(self)@ == old(
                    self)@.migrated(collection@, id@, now),
                Err(e) => old(self)@.refusal(caller@) == Some(e) && final(self)@ == old(self)@,
            },
            old(self)@.consistent() ==> final(self)@.consistent(),
            old(self)@.logs_match_versions() ==> final(self)@.logs_match_versions(),
    {
        match self.authorize(caller) {
            Err(e) => {
                return Err(e);
            },
            Ok(_) => {},
        }
        proof {
            if old(self)@.consistent() {
                law_consistent_in_range(old(self)@, collection@, id@);
                law_migrate_consistent(old(self)@, collection@, id@, now);
            }
            if old(self)@.logs_match_versions() {
                law_logs_match_versions(
                    old(self)@,
                    collection@,
                    id@,
                    Seq::empty(),
                    StorageZone::Hot,
                    now,
                );
            }
        }
        match self.get_meta(collection, id) {
            Some(meta) => {
                if meta.zone == StorageZone::Cold {
                    return Ok(());
                }
                let mut meta = meta;
                meta.zone = StorageZone::Cold;
                meta.updated_at = now;
                self.load_meta(collection, id, meta);
                self.list(collection, id, &meta);
                stats_migrate(&mut self.stats);
            },
            None => {},
        }
        Ok(())
    }

    /// Deletes a chunk: its payload, metadata and delta log; where it had
    /// metadata, its index entry and its share of the statistics too. The
    /// Bloom filter keeps the key. Deleting what does not exist is no error.
    pub fn delete(&mut self, caller: &str, collection: &[u8], id: &[u8]) -> (done: Result<
        (),
        VaultError,
    >)
        requires
            old(self)@.refusal(caller@) is None ==> old(self)@.consistent() || old(
                self)@.delete_fits(collection@, id@),
        ensures
            match done {
                Ok(_) => old(self)@.refusal(caller@) is None && final(self)@ == old(self)@.deleted(
                    collection@,
                    id@,
                ),
                Err(e) => old(self)@.refusal(caller@) == Some(e) && final(self)@ == old(self)@,
            },
            old(self)@.consistent() ==> final(self)@.consistent(),
            old(self)@.logs_match_versions() ==> final(self)@.logs_match_versions(),
    {
        match self.authorize(caller) {
            Err(e) => {
                return Err(e);
            },
            Ok(_) => {},
        }
        proof {
            if old(self)@.consistent() {
                law_consistent_in_range(old(self)@, collection@, id@);
                law_delete_consistent(old(self)@, collection@, id@);
            }
            if old(self)@.logs_match_versions() {
                law_logs_match_versions(
                    old(self)@,
                    collection@,
                    id@,
                    Seq::empty(),
                    StorageZone::Hot,
                    0,
                );
            }
        }
        let found = self.get_meta(collection, id);
        let mut index = self.get_index(collection);
        self.drop_chunk(collection, id);
        self.drop_meta(collection, id);
        self.drop_deltas(collection, id);
        match found {
            Some(meta) => {
                index_remove(&mut index, id);
                self.load_index(collection, index);
                take_share(&mut self.stats, &meta);
            },
            None => {},
        }
        Ok(())
    }

    /// `put` where the write is in range. Where it is not, nothing is done
    /// and the answer is `None`.
    pub fn try_put(&mut self, caller: &str, collection: &[u8], id: &[u8], data: &[u8], now: u64)
        -> (done: Option<Result<(), VaultError>>)
        ensures
            match done {
                Some(Ok(_)) => old(self)@.refusal(caller@) is None && final(self)@ == old(
                    self)@.with_chunk(collection@, id@, data@, StorageZone::Hot, now),
                Some(Err(e)) => old(self)@.refusal(caller@) == Some(e) && final(self)@ == old(
                    self)@,
                None => old(self)@.refusal(caller@) is None && !old(self)@.write_fits(
                    collection@,
                    id@,
                    data@.len(),
                    StorageZone::Hot,
                ) && final(self)@ == old(self)@,
            },
            old(self)@.consistent() ==> final(self)@.consistent(),
    {
        if self.authorize(caller).is_ok() && !self.write_is_in_range(
            collection,
            id,
            data.len(),
            StorageZone::Hot,
        ) {
            return None;
        }
        Some(self.put(caller, collection, id, data, now))
    }

    /// `put_zone` where the write is in range. Where it is not, nothing is
    /// done and the answer is `None`.
    pub fn try_put_zone(
        &mut self,
        caller: &str,
        collection: &[u8],
        id: &[u8],
        data: &[u8],
        zone: StorageZone,
        now: u64,
    ) -> (done: Option<Result<(), VaultError>>)
        ensures
            match done {
                Some(Ok(_)) => old(self)@.refusal(caller@) is None && final(self)@ == old(
                    self)@.with_chunk(collection@, id@, data@, zone, now),
                Some(Err(e)) => old(self)@.refusal(caller@) == Some(e) && final(self)@ == old(
                    self)@,
                None => old(self)@.refusal(caller@) is None && !old(self)@.write_fits(
                    collection@,
                    id@,
                    data@.len(),
                    zone,
                ) && final(self)@ == old(self)@,
            },
            old(self)@.consistent() ==> final(self)@.consistent(),
    {
        if self.authorize(caller).is_ok() && !self.write_is_in_range(
            collection,
            id,
            data.len(),
            zone,
        ) {
            return None;
        }
        Some(self.put_zone(caller, collection, id, data, zone, now))
    }

    /// `batch_put` where the batch is in range. Where it is not, nothing is
    /// done and the answer is `None`. A batch of sequences of unequal
    /// lengths is refused with `SizeMismatch`, whatever it holds.
    pub fn try_batch_put(
        &mut self,
        caller: &str,
        collections: &Vec<Vec<u8>>,
        ids: &Vec<Vec<u8>>,
        values: &Vec<Vec<u8>>,
        now: u64,
    ) -> (done: Option<Result<(), VaultError>>)
        ensures
            match done {
                Some(Ok(_)) => old(self)@.batch_refusal(
                    caller@,
                    collections@.len(),
                    ids@.len(),
                    values@.len(),
                ) is None && final(self)@ == old(self)@.with_batch(
                    collections@,
                    ids@,
                    values@,
                    collections@.len(),
                    now,
                ),
                Some(Err(e)) => old(self)@.batch_refusal(
                    caller@,
                    collections@.len(),
                    ids@.len(),
                    values@.len(),
                ) == Some(e) && final(self)@ == old(self)@,
                None => old(self)@.batch_refusal(
                    caller@,
                    collections@.len(),
                    ids@.len(),
                    values@.len(),
                ) is None && !old(self)@.batch_fits(
                    collections@,
                    ids@,
                    values@,
                    values@.len(),
                    now,
                ) && final(self)@ == old(self)@,
            },
            old(self)@.consistent() ==> final(self)@.consistent(),
    {
        if self.authorize(caller).is_ok() && !self.batch_is_in_range(
            collections,
            ids,
            values,
            now,
        ) {
            return None;
        }
        Some(self.batch_put(caller, collections, ids, values, now))
    }

    /// `delta_update` where the version has a successor. Where it has
    /// none, nothing is done and the answer is `None`.
    pub fn try_delta_update(
        &mut self,
        caller: &str,
        collection: &[u8],
        id: &[u8],
        patch: &[u8],
        now: u64,
    ) -> (done: Option<Result<(), VaultError>>)
        ensures
            match done {
                Some(Ok(_)) => old(self)@.delta_refusal(caller@, collection@, id@) is None
                    && final(self)@ == old(self)@.with_delta(collection@, id@, patch@, now),
                Some(Err(e)) => old(self)@.delta_refusal(caller@, collection@, id@) == Some(e)
                    && final(self)@ == old(self)@,
                None => old(self)@.delta_refusal(caller@, collection@, id@) is None && !old(
                    self)@.delta_fits(collection@, id@) && final(self)@ == old(self)@,
            },
            old(self)@.consistent() ==> final(self)@.consistent(),
    {
        if self.authorize(caller).is_ok() && self.has(collection, id) && !self.delta_is_in_range(
            collection,
            id,
        ) {
            return None;
        }
        Some(self.delta_update(caller, collection, id, patch, now))
    }

    /// `migrate_to_cold` where the migration is in range, as it is in every
    /// consistent vault. Where it is not, nothing is done and the answer is
    /// `None`.
    pub fn try_migrate_to_cold(&mut self, caller: &str, collection: &[u8], id: &[u8], now: u64)
        -> (done: Option<Result<(), VaultError>>)
        ensures
            match done {
                Some(Ok(_)) => old(self)@.refusal(caller@) is None && final(self)@ == old(
                    self)@.migrated(collection@, id@, now),
                Some(Err(e)) => old(self)@.refusal(caller@) == Some(e) && final(self)@ == old(
                    self)@,
                None => old(self)@.refusal(caller@) is None && !old(self)@.migrate_fits(
                    collection@,
                    id@,
                ) && final(self)@ == old(self)@,
            },
            old(self)@.consistent() ==> done is Some && final(self)@.consistent(),
    {
        proof {
            if self@.consistent() {
                law_consistent_in_range(self@, collection@, id@);
            }
        }
        if self.authorize(caller).is_ok() && !self.migration_is_in_range(collection, id) {
            return None;
        }
        Some(self.migrate_to_cold(caller, collection, id, now))
    }

    /// `delete` where the delete is in range, as it is in every consistent
    /// vault. Where it is not, nothing is done and the answer is `None`.
    pub fn try_delete(&mut self, caller: &str, collection: &[u8], id: &[u8]) -> (done: Option<
        Result<(), VaultError>,
    >)
        ensures
            match done {
                Some(Ok(_)) => old(self)@.refusal(caller@) is None && final(self)@ == old(
                    self)@.deleted(collection@, id@),
                Some(Err(e)) => old(self)@.refusal(caller@) == Some(e) && final(self)@ == old(
                    self)@,
                None => old(self)@.refusal(caller@) is None && !old(self)@.delete_fits(
                    collection@,
                    id@,
                ) && final(self)@ == old(self)@,
            },
            old(self)@.consistent() ==> done is Some && final(self)@.consistent(),
    {
        proof {
            if self@.consistent() {
                law_consistent_in_range(self@, collection@, id@);
            }
        }
        if self.authorize(caller).is_ok() && !self.delete_is_in_range(collection, id) {
            return None;
        }
        Some(self.delete(caller, collection, id))
    }
}

} // verus!

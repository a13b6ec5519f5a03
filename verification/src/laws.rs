//! What holds of the operations taken together.

use vstd::prelude::*;
use vstd::arithmetic::div_mod::lemma_div_multiples_vanish;
use vstd::set_lib::{lemma_len_subset, lemma_len_union, lemma_set_disjoint_lens};
use crate::bloom::{key_probes, lemma_probes_bound, BLOOM_K};
use crate::hash::{byte_len, key_hash};
use crate::index::{distinct_ids, has_id, lemma_has_id, lemma_removed, lemma_upserted, removed};
use crate::model::{
    fresh_meta, mirrors, share_fits, size_of, size_sum, ChunkKey, VaultState,
    ORIGINAL_SIZE_FACTOR,
};
use crate::types::{entry_of, ChunkMeta, StorageZone, VaultError};

verus! {

/// Round trip: after a payload was written under a key, the key exists, its
/// payload is exactly what was written, its metadata gives the payload's
/// length as the compressed size, and the filter answers "probably present".
pub proof fn law_write_then_read(
    s: VaultState,
    collection: Seq<u8>,
    id: Seq<u8>,
    data: Seq<u8>,
    zone: StorageZone,
    now: u64,
)
    requires
        data.len() <= u32::MAX,
    ensures
        s.with_chunk(collection, id, data, zone, now).has(collection, id),
        s.with_chunk(collection, id, data, zone, now).payload(collection, id) == data,
        s.with_chunk(collection, id, data, zone, now).meta(collection, id) == Some(
            fresh_meta(data, zone, now),
        ),
        fresh_meta(data, zone, now).compressed_size == data.len(),
        fresh_meta(data, zone, now).version == 1,
        s.with_chunk(collection, id, data, zone, now).bloom_check(collection, id),
{
}

/// No false negatives: in a consistent vault the filter answers "probably
/// present" for every chunk that exists.
pub proof fn law_no_false_negatives(s: VaultState, collection: Seq<u8>, id: Seq<u8>)
    requires
        s.consistent(),
        s.has(collection, id),
    ensures
        s.bloom_check(collection, id),
{
}

/// A sum of sizes can be taken from any of its keys first.
pub proof fn lemma_size_sum_split(metas: Map<ChunkKey, ChunkMeta>, original: bool, key: ChunkKey)
    requires
        metas.dom().finite(),
        metas.contains_key(key),
    ensures
        size_sum(metas, original) == size_of(metas[key], original) + size_sum(
            metas.remove(key),
            original,
        ),
    decreases metas.dom().len(),
{
    let first = metas.dom().choose();
    if first != key {
        let without_first = metas.remove(first);
        let without_key = metas.remove(key);
        lemma_size_sum_split(without_first, original, key);
        lemma_size_sum_split(without_key, original, first);
        assert(without_first.remove(key) =~= without_key.remove(first));
    }
}

/// Where every uncompressed size is four times the stored size, the sums are so too.
pub proof fn lemma_size_sum_scaled(metas: Map<ChunkKey, ChunkMeta>)
    requires
        metas.dom().finite(),
        forall|key: ChunkKey| #[trigger]
            metas.contains_key(key) ==> metas[key].original_size == metas[key].compressed_size
                * ORIGINAL_SIZE_FACTOR,
    ensures
        size_sum(metas, true) == size_sum(metas, false) * ORIGINAL_SIZE_FACTOR,
    decreases metas.dom().len(),
{
    if metas.dom().len() > 0 {
        let key = metas.dom().choose();
        assert(metas.contains_key(key));
        let rest = metas.remove(key);
        assert forall|k: ChunkKey| #[trigger] rest.contains_key(k) implies rest[k].original_size
            == rest[k].compressed_size * ORIGINAL_SIZE_FACTOR by {
            assert(metas.contains_key(k));
        }
        lemma_size_sum_scaled(rest);
    }
}

/// The keys of each zone are finitely many, and the two zones share out the keys.
pub proof fn lemma_zone_keys(s: VaultState)
    requires
        s.paired(),
    ensures
        s.zone_keys(StorageZone::Hot).finite(),
        s.zone_keys(StorageZone::Cold).finite(),
        s.zone_keys(StorageZone::Hot).len() + s.zone_keys(StorageZone::Cold).len()
            == s.chunks.dom().len(),
{
    let hot = s.zone_keys(StorageZone::Hot);
    let cold = s.zone_keys(StorageZone::Cold);
    lemma_len_subset(hot, s.metas.dom());
    lemma_len_subset(cold, s.metas.dom());
    assert(hot.disjoint(cold));
    lemma_set_disjoint_lens(hot, cold);
    assert(hot + cold =~= s.metas.dom()) by {
        assert forall|key: ChunkKey| s.metas.dom().contains(key) implies (hot + cold).contains(
            key,
        ) by {
            if s.metas[key].zone != StorageZone::Hot {
                assert(s.metas[key].zone == StorageZone::Cold);
            }
        }
    }
}

/// Statistics consistency: in a consistent vault the entry count is the
/// number of chunks that exist, the hot and the cold count are the numbers
/// of chunks in each zone and add up to the entry count, and the byte totals
/// are the sums of the chunks' sizes, the uncompressed total four times the
/// stored one.
pub proof fn law_statistics_consistent(s: VaultState)
    requires
        s.consistent(),
    ensures
        s.stats.total_entries == s.chunks.dom().len(),
        s.stats.hot_entries == s.zone_keys(StorageZone::Hot).len(),
        s.stats.cold_entries == s.zone_keys(StorageZone::Cold).len(),
        s.stats.hot_entries + s.stats.cold_entries == s.stats.total_entries,
        s.stats.total_bytes_stored == size_sum(s.metas, false),
        s.stats.total_bytes_original == size_sum(s.metas, true),
        s.stats.total_bytes_original == s.stats.total_bytes_stored * ORIGINAL_SIZE_FACTOR,
{
    lemma_zone_keys(s);
    lemma_size_sum_scaled(s.metas);
}

/// In a consistent vault every migration and every delete is in range, and
/// so is taking the share of any chunk out of the statistics.
pub proof fn law_consistent_in_range(s: VaultState, collection: Seq<u8>, id: Seq<u8>)
    requires
        s.consistent(),
    ensures
        s.migrate_fits(collection, id),
        s.delete_fits(collection, id),
        s.metas.contains_key((collection, id)) ==> share_fits(s.stats, s.metas[(collection, id)]),
{
    let key = (collection, id);
    lemma_zone_keys(s);
    if s.metas.contains_key(key) {
        let meta = s.metas[key];
        if meta.zone != StorageZone::Cold {
            assert(s.zone_keys(StorageZone::Hot).contains(key));
        }
        lemma_size_sum_split(s.metas, false, key);
        lemma_size_sum_split(s.metas, true, key);
        let rest = s.metas.remove(key);
        assert forall|k: ChunkKey| #[trigger] rest.contains_key(k) implies rest[k].original_size
            == rest[k].compressed_size * ORIGINAL_SIZE_FACTOR by {
            assert(s.metas.contains_key(k));
        }
        lemma_size_sum_scaled(rest);
        let stored = size_sum(rest, false);
        let original = size_sum(rest, true);
        if original > 0 {
            assert(stored * 100 == original * 25);
            lemma_div_multiples_vanish(25, original as int);
        }
    }
}

/// The empty vault is consistent, and its delta logs follow its versions.
pub proof fn law_empty_consistent()
    ensures
        VaultState::empty().consistent(),
        VaultState::empty().logs_match_versions(),
{
    let s = VaultState::empty();
    assert forall|c: Seq<u8>, i: Seq<u8>|
        #![trigger s.has(c, i)]
        #![trigger has_id(s.index(c), i)]
        s.has(c, i) <==> has_id(s.index(c), i) by {
        lemma_has_id(s.index(c), i);
    }
    assert(s.zone_keys(StorageZone::Hot) =~= Set::<ChunkKey>::empty());
    assert(s.zone_keys(StorageZone::Cold) =~= Set::<ChunkKey>::empty());
}

/// Initialization keeps a vault consistent.
pub proof fn law_initialize_consistent(s: VaultState, admin: Seq<char>)
    requires
        s.consistent(),
        s.admin is None,
    ensures
        s.initialized(admin).consistent(),
{
    let after = s.initialized(admin);
    assert(after.metas.dom() =~= Set::<ChunkKey>::empty());
    assert(after.zone_keys(StorageZone::Hot) =~= Set::<ChunkKey>::empty());
    assert(after.zone_keys(StorageZone::Cold) =~= Set::<ChunkKey>::empty());
    assert forall|c: Seq<u8>| distinct_ids(#[trigger] after.index(c)) by {
        assert(after.index(c) == s.index(c));
    }
    assert forall|c: Seq<u8>, i: Seq<u8>|
        #![trigger after.has(c, i)]
        #![trigger has_id(after.index(c), i)]
        after.has(c, i) <==> has_id(after.index(c), i) by {
        assert(after.index(c) == s.index(c));
        assert(s.has(c, i) <==> has_id(s.index(c), i));
    }
    assert forall|c: Seq<u8>, k: int| 0 <= k < after.index(c).len() implies {
        let e = #[trigger] after.index(c)[k];
        after.metas.contains_key((c, e.id)) && mirrors(e, after.metas[(c, e.id)])
    } by {
        assert(after.index(c) == s.index(c));
        let e = s.index(c)[k];
        assert(s.metas.contains_key((c, e.id)));
    }
}

/// Sizes stay estimated at four times the stored size where one chunk's
/// metadata is written with such sizes and the others' stay.
proof fn lemma_sized_kept(s: VaultState, after: VaultState, key: ChunkKey)
    requires
        s.sized(),
        forall|k: ChunkKey|
            k != key && #[trigger] after.metas.contains_key(k) ==> s.metas.contains_key(k)
                && after.metas[k] == s.metas[k],
        after.metas.contains_key(key) ==> after.metas[key].original_size
            == after.metas[key].compressed_size * ORIGINAL_SIZE_FACTOR,
    ensures
        after.sized(),
{
    assert forall|k: ChunkKey| #[trigger]
        after.metas.contains_key(k) implies after.metas[k].original_size
        == after.metas[k].compressed_size * ORIGINAL_SIZE_FACTOR by {
        if k != key {
            assert(s.metas.contains_key(k));
        }
    }
}

/// Writing an entry for a chunk that exists afterwards keeps the indexes in
/// step with the chunks.
proof fn lemma_upsert_indexed(
    s: VaultState,
    after: VaultState,
    collection: Seq<u8>,
    id: Seq<u8>,
    meta: ChunkMeta,
)
    requires
        s.indexed(),
        after.chunks.dom() =~= s.chunks.dom().insert((collection, id)),
        after.metas == s.metas.insert((collection, id), meta),
        after.indexes == s.indexes.insert(
            collection,
            crate::index::upserted(s.index(collection), entry_of(id, meta)),
        ),
    ensures
        after.indexed(),
{
    let entry = entry_of(id, meta);
    lemma_upserted(s.index(collection), entry);
    assert(distinct_ids(s.index(collection)));
    assert forall|c: Seq<u8>| distinct_ids(#[trigger] after.index(c)) by {
        if c != collection {
            assert(after.index(c) == s.index(c));
        }
    }
    assert forall|c: Seq<u8>, i: Seq<u8>|
        #![trigger after.has(c, i)]
        #![trigger has_id(after.index(c), i)]
        after.has(c, i) <==> has_id(after.index(c), i) by {
        assert(after.has(c, i) == (s.has(c, i) || (c, i) == (collection, id)));
        if c != collection {
            assert(after.index(c) == s.index(c));
            assert(s.has(c, i) <==> has_id(s.index(c), i));
        } else if i != id {
            assert(s.has(c, i) <==> has_id(s.index(c), i));
        }
    }
    assert forall|c: Seq<u8>, k: int| 0 <= k < after.index(c).len() implies {
        let e = #[trigger] after.index(c)[k];
        after.metas.contains_key((c, e.id)) && mirrors(e, after.metas[(c, e.id)])
    } by {
        if c != collection {
            assert(after.index(c) == s.index(c));
            let e = s.index(c)[k];
            assert(s.metas.contains_key((c, e.id)));
        } else {
            let e = after.index(c)[k];
            if e != entry {
                assert(e == s.index(c)[k]);
                assert(s.metas.contains_key((c, s.index(c)[k].id)));
            }
        }
    }
}

/// Statistics count each chunk once: a write, be it under a new key or in
/// place of a chunk, keeps the entry counts equal to the numbers of chunks.
pub proof fn law_write_counted(
    s: VaultState,
    collection: Seq<u8>,
    id: Seq<u8>,
    data: Seq<u8>,
    zone: StorageZone,
    now: u64,
)
    requires
        s.paired(),
        s.counted(),
        s.write_fits(collection, id, data.len(), zone),
    ensures
        s.with_chunk(collection, id, data, zone, now).counted(),
{
    let after = s.with_chunk(collection, id, data, zone, now);
    let key = (collection, id);
    let other = if zone == StorageZone::Hot {
        StorageZone::Cold
    } else {
        StorageZone::Hot
    };
    lemma_zone_keys(s);
    assert(s.metas.dom().contains(key) == s.chunks.dom().contains(key));
    assert(after.zone_keys(zone) =~= s.zone_keys(zone).insert(key));
    assert(after.zone_keys(other) =~= s.zone_keys(other).remove(key));
    if s.metas.contains_key(key) {
        assert(after.chunks.dom() =~= s.chunks.dom());
        if s.metas[key].zone == zone {
            assert(s.zone_keys(zone).contains(key));
        } else {
            assert(s.metas[key].zone == other);
            assert(s.zone_keys(other).contains(key));
        }
    }
}

/// Statistics sum each chunk once: a write, be it under a new key or in
/// place of a chunk, keeps the byte totals equal to the sums of the
/// chunks' sizes.
pub proof fn law_write_summed(
    s: VaultState,
    collection: Seq<u8>,
    id: Seq<u8>,
    data: Seq<u8>,
    zone: StorageZone,
    now: u64,
)
    requires
        s.paired(),
        s.summed(),
        s.write_fits(collection, id, data.len(), zone),
    ensures
        s.with_chunk(collection, id, data, zone, now).summed(),
{
    let after = s.with_chunk(collection, id, data, zone, now);
    let key = (collection, id);
    lemma_size_sum_split(after.metas, false, key);
    lemma_size_sum_split(after.metas, true, key);
    if s.metas.contains_key(key) {
        lemma_size_sum_split(s.metas, false, key);
        lemma_size_sum_split(s.metas, true, key);
        assert(after.metas.remove(key) =~= s.metas.remove(key));
    } else {
        assert(after.metas.remove(key) =~= s.metas);
    }
}

/// A write keeps an initialized vault consistent: the filter only gains
/// bits and the key written is added to it, the statistics count the new
/// chunk in place of the one it replaces, and the index entry is rewritten.
pub proof fn law_write_consistent(
    s: VaultState,
    collection: Seq<u8>,
    id: Seq<u8>,
    data: Seq<u8>,
    zone: StorageZone,
    now: u64,
)
    requires
        s.consistent(),
        s.admin is Some,
        s.write_fits(collection, id, data.len(), zone),
    ensures
        s.with_chunk(collection, id, data, zone, now).consistent(),
{
    let after = s.with_chunk(collection, id, data, zone, now);
    let key = (collection, id);
    assert forall|c: Seq<u8>, i: Seq<u8>| #[trigger] after.has(c, i) implies after.bloom_check(
        c,
        i,
    ) by {
        if (c, i) != key {
            assert(s.has(c, i));
        }
    }
    lemma_sized_kept(s, after, (collection, id));
    law_write_counted(s, collection, id, data, zone, now);
    law_write_summed(s, collection, id, data, zone, now);
    lemma_upsert_indexed(s, after, collection, id, fresh_meta(data, zone, now));
}

/// A batch keeps an initialized vault consistent, also where it names a
/// key more than once.
pub proof fn law_batch_consistent(
    s: VaultState,
    collections: Seq<Vec<u8>>,
    ids: Seq<Vec<u8>>,
    values: Seq<Vec<u8>>,
    count: nat,
    now: u64,
)
    requires
        s.consistent(),
        s.admin is Some,
        s.batch_fits(collections, ids, values, count, now),
    ensures
        s.with_batch(collections, ids, values, count, now).consistent(),
        s.with_batch(collections, ids, values, count, now).admin == s.admin,
    decreases count,
{
    if count > 0 {
        let n = (count - 1) as nat;
        let reached = s.with_batch(collections, ids, values, n, now);
        law_batch_consistent(s, collections, ids, values, n, now);
        assert(reached.write_fits(
            collections[n as int]@,
            ids[n as int]@,
            values[n as int]@.len(),
            StorageZone::Hot,
        ));
        law_write_consistent(
            reached,
            collections[n as int]@,
            ids[n as int]@,
            values[n as int]@,
            StorageZone::Hot,
            now,
        );
    }
}

/// A delta update keeps a vault consistent: the index entry follows the
/// metadata to the next version.
pub proof fn law_delta_consistent(
    s: VaultState,
    collection: Seq<u8>,
    id: Seq<u8>,
    patch: Seq<u8>,
    now: u64,
)
    requires
        s.consistent(),
    ensures
        s.with_delta(collection, id, patch, now).consistent(),
{
    let after = s.with_delta(collection, id, patch, now);
    let key = (collection, id);
    assert(after.metas.dom() =~= s.metas.dom());
    assert forall|c: Seq<u8>, i: Seq<u8>| #[trigger] after.has(c, i) implies after.bloom_check(
        c,
        i,
    ) by {
        assert(s.has(c, i));
    }
    lemma_sized_kept(s, after, (collection, id));
    assert(after.zone_keys(StorageZone::Hot) =~= s.zone_keys(StorageZone::Hot));
    assert(after.zone_keys(StorageZone::Cold) =~= s.zone_keys(StorageZone::Cold));
    if s.metas.contains_key(key) {
        let meta = after.metas[key];
        lemma_size_sum_split(s.metas, false, key);
        lemma_size_sum_split(s.metas, true, key);
        lemma_size_sum_split(after.metas, false, key);
        lemma_size_sum_split(after.metas, true, key);
        assert(after.metas.remove(key) =~= s.metas.remove(key));
        assert(s.metas.dom().contains(key));
        assert(s.chunks.dom().contains(key));
        lemma_upsert_indexed(s, after, collection, id, meta);
    } else {
        assert(after.metas =~= s.metas);
        assert(after.indexes == s.indexes);
        assert forall|c: Seq<u8>| distinct_ids(#[trigger] after.index(c)) by {
            assert(after.index(c) == s.index(c));
        }
        assert forall|c: Seq<u8>, i: Seq<u8>|
            #![trigger after.has(c, i)]
            #![trigger has_id(after.index(c), i)]
            after.has(c, i) <==> has_id(after.index(c), i) by {
            assert(after.index(c) == s.index(c));
            assert(s.has(c, i) <==> has_id(s.index(c), i));
        }
        assert forall|c: Seq<u8>, k: int| 0 <= k < after.index(c).len() implies {
            let e = #[trigger] after.index(c)[k];
            after.metas.contains_key((c, e.id)) && mirrors(e, after.metas[(c, e.id)])
        } by {
            assert(after.index(c) == s.index(c));
            let e = s.index(c)[k];
            assert(s.metas.contains_key((c, e.id)));
        }
    }
}

/// A migration keeps a vault consistent: one chunk moves from the hot count
/// to the cold count, or nothing changes.
pub proof fn law_migrate_consistent(s: VaultState, collection: Seq<u8>, id: Seq<u8>, now: u64)
    requires
        s.consistent(),
    ensures
        s.migrated(collection, id, now).consistent(),
{
    let after = s.migrated(collection, id, now);
    let key = (collection, id);
    if s.migrates(collection, id) {
        law_consistent_in_range(s, collection, id);
        lemma_zone_keys(s);
        assert(after.metas.dom() =~= s.metas.dom());
        assert forall|c: Seq<u8>, i: Seq<u8>| #[trigger]
            after.has(c, i) implies after.bloom_check(c, i) by {
            assert(s.has(c, i));
        }
        lemma_sized_kept(s, after, (collection, id));
        assert(s.metas[key].zone == StorageZone::Hot);
        assert(s.zone_keys(StorageZone::Hot).contains(key));
        assert(after.zone_keys(StorageZone::Hot) =~= s.zone_keys(StorageZone::Hot).remove(key));
        assert(after.zone_keys(StorageZone::Cold) =~= s.zone_keys(StorageZone::Cold).insert(key));
        lemma_size_sum_split(s.metas, false, key);
        lemma_size_sum_split(s.metas, true, key);
        lemma_size_sum_split(after.metas, false, key);
        lemma_size_sum_split(after.metas, true, key);
        assert(after.metas.remove(key) =~= s.metas.remove(key));
        assert(s.metas.dom().contains(key));
        assert(s.chunks.dom().contains(key));
        lemma_upsert_indexed(s, after, collection, id, after.metas[key]);
    }
}

/// A delete keeps a vault consistent: the statistics lose the chunk's share
/// and the index loses its entry.
pub proof fn law_delete_consistent(s: VaultState, collection: Seq<u8>, id: Seq<u8>)
    requires
        s.consistent(),
    ensures
        s.deleted(collection, id).consistent(),
{
    let after = s.deleted(collection, id);
    let key = (collection, id);
    let listed = s.metas.contains_key(key);
    lemma_zone_keys(s);
    assert(s.metas.dom().contains(key) == s.chunks.dom().contains(key));
    assert forall|c: Seq<u8>, i: Seq<u8>| #[trigger] after.has(c, i) implies after.bloom_check(
        c,
        i,
    ) by {
        assert(s.has(c, i));
    }
    lemma_sized_kept(s, after, (collection, id));
    if listed {
        lemma_removed(s.index(collection), id);
        lemma_size_sum_split(s.metas, false, key);
        lemma_size_sum_split(s.metas, true, key);
        if s.metas[key].zone == StorageZone::Hot {
            assert(s.zone_keys(StorageZone::Hot).contains(key));
            assert(after.zone_keys(StorageZone::Hot) =~= s.zone_keys(StorageZone::Hot).remove(
                key,
            ));
            assert(after.zone_keys(StorageZone::Cold) =~= s.zone_keys(StorageZone::Cold));
        } else {
            assert(s.zone_keys(StorageZone::Cold).contains(key));
            assert(after.zone_keys(StorageZone::Cold) =~= s.zone_keys(StorageZone::Cold).remove(
                key,
            ));
            assert(after.zone_keys(StorageZone::Hot) =~= s.zone_keys(StorageZone::Hot));
        }
    } else {
        assert(after.chunks =~= s.chunks);
        assert(after.metas =~= s.metas);
        assert(after.zone_keys(StorageZone::Hot) =~= s.zone_keys(StorageZone::Hot));
        assert(after.zone_keys(StorageZone::Cold) =~= s.zone_keys(StorageZone::Cold));
    }
    assert(distinct_ids(s.index(collection)));
    assert forall|c: Seq<u8>| distinct_ids(#[trigger] after.index(c)) by {
        if c != collection || !listed {
            assert(after.index(c) == s.index(c));
        }
    }
    assert forall|c: Seq<u8>, i: Seq<u8>|
        #![trigger after.has(c, i)]
        #![trigger has_id(after.index(c), i)]
        after.has(c, i) <==> has_id(after.index(c), i) by {
        if c != collection || !listed {
            assert(after.index(c) == s.index(c));
            assert(s.has(c, i) <==> has_id(s.index(c), i));
        } else if i != id {
            assert(s.has(c, i) <==> has_id(s.index(c), i));
        }
    }
    assert forall|c: Seq<u8>, k: int| 0 <= k < after.index(c).len() implies {
        let e = #[trigger] after.index(c)[k];
        after.metas.contains_key((c, e.id)) && mirrors(e, after.metas[(c, e.id)])
    } by {
        if c != collection || !listed {
            assert(after.index(c) == s.index(c));
            let e = s.index(c)[k];
            assert(s.metas.contains_key((c, e.id)));
        } else {
            let e = after.index(c)[k];
            let j = choose|j: int|
                0 <= j < s.index(c).len() && s.index(c)[j] == removed(s.index(c), id)[k];
            assert(s.metas.contains_key((c, s.index(c)[j].id)));
            lemma_has_id(after.index(c), id);
            assert(e.id != id);
        }
    }
}

/// The filter is monotonic: a write, a delta update, a migration and a
/// delete never clear a bit, so a key that tested positive before tests
/// positive after.
pub proof fn law_filter_monotonic(
    s: VaultState,
    collection: Seq<u8>,
    id: Seq<u8>,
    data: Seq<u8>,
    zone: StorageZone,
    now: u64,
    other_collection: Seq<u8>,
    other_id: Seq<u8>,
)
    requires
        s.bloom_check(other_collection, other_id),
    ensures
        s.with_chunk(collection, id, data, zone, now).bloom_check(other_collection, other_id),
        s.with_delta(collection, id, data, now).bloom_check(other_collection, other_id),
        s.migrated(collection, id, now).bloom_check(other_collection, other_id),
        s.deleted(collection, id).bloom_check(other_collection, other_id),
{
}

/// The filter is monotonic under a batch as well.
pub proof fn law_filter_monotonic_batch(
    s: VaultState,
    collections: Seq<Vec<u8>>,
    ids: Seq<Vec<u8>>,
    values: Seq<Vec<u8>>,
    count: nat,
    now: u64,
)
    ensures
        s.bloom.subset_of(s.with_batch(collections, ids, values, count, now).bloom),
        s.with_batch(collections, ids, values, count, now).seed == s.seed,
    decreases count,
{
    if count > 0 {
        law_filter_monotonic_batch(s, collections, ids, values, (count - 1) as nat, now);
    }
}

/// The filter fills slowly: a write sets no more than seven further bits.
pub proof fn law_filter_growth(
    s: VaultState,
    collection: Seq<u8>,
    id: Seq<u8>,
    data: Seq<u8>,
    zone: StorageZone,
    now: u64,
)
    requires
        s.bloom.finite(),
    ensures
        s.with_chunk(collection, id, data, zone, now).bloom.finite(),
        s.with_chunk(collection, id, data, zone, now).bloom.len() <= s.bloom.len() + BLOOM_K,
{
    let added = key_probes(collection, id, s.seed);
    lemma_probes_bound(key_hash(byte_len(collection), byte_len(id), s.seed));
    lemma_len_union(s.bloom, added);
}

/// The filter fills slowly: after initialization and a batch of `count`
/// writes, no more than `7 * count` of the filter's bits are set.
pub proof fn law_filter_fill(
    s: VaultState,
    admin: Seq<char>,
    collections: Seq<Vec<u8>>,
    ids: Seq<Vec<u8>>,
    values: Seq<Vec<u8>>,
    count: nat,
    now: u64,
)
    ensures
        s.initialized(admin).with_batch(collections, ids, values, count, now).bloom.finite(),
        s.initialized(admin).with_batch(collections, ids, values, count, now).bloom.len()
            <= BLOOM_K * count,
    decreases count,
{
    if count > 0 {
        let n = (count - 1) as nat;
        law_filter_fill(s, admin, collections, ids, values, n, now);
        law_filter_growth(
            s.initialized(admin).with_batch(collections, ids, values, n, now),
            collections[n as int]@,
            ids[n as int]@,
            values[n as int]@,
            StorageZone::Hot,
            now,
        );
    }
}

/// Batch validation: a batch of an admitted caller is refused exactly when
/// its three sequences are not equally long, and then for that reason.
pub proof fn law_batch_validation(
    s: VaultState,
    caller: Seq<char>,
    collections: nat,
    ids: nat,
    values: nat,
)
    requires
        s.refusal(caller) is None,
    ensures
        s.batch_refusal(caller, collections, ids, values) is Some <==> !(collections == ids
            && collections == values),
        s.batch_refusal(caller, collections, ids, values) is Some ==> s.batch_refusal(
            caller,
            collections,
            ids,
            values,
        ) == Some(VaultError::SizeMismatch),
{
}

/// Keys collide by length: two keys whose collection names are equally long
/// in bytes, and whose ids are, are probed at the same positions, so the
/// filter gives one answer for both.
pub proof fn law_equal_lengths_collide(
    s: VaultState,
    collection: Seq<u8>,
    id: Seq<u8>,
    other_collection: Seq<u8>,
    other_id: Seq<u8>,
)
    requires
        byte_len(collection) == byte_len(other_collection),
        byte_len(id) == byte_len(other_id),
    ensures
        key_probes(collection, id, s.seed) == key_probes(other_collection, other_id, s.seed),
        s.bloom_check(collection, id) == s.bloom_check(other_collection, other_id),
{
}

/// False positives persist: after a delete the chunk does not exist, every
/// other chunk is as it was, and the filter answers for every key what it
/// answered before.
pub proof fn law_delete_keeps_filter(
    s: VaultState,
    collection: Seq<u8>,
    id: Seq<u8>,
    other_collection: Seq<u8>,
    other_id: Seq<u8>,
)
    ensures
        !s.deleted(collection, id).has(collection, id),
        s.deleted(collection, id).payload(collection, id) == Seq::<u8>::empty(),
        s.deleted(collection, id).meta(collection, id) is None,
        s.deleted(collection, id).delta_log(collection, id) == Seq::<Seq<u8>>::empty(),
        s.deleted(collection, id).bloom_check(other_collection, other_id) == s.bloom_check(
            other_collection,
            other_id,
        ),
        (other_collection, other_id) != (collection, id) ==> s.deleted(collection, id).has(
            other_collection,
            other_id,
        ) == s.has(other_collection, other_id),
{
}

/// Idempotent migration: migrating a chunk a second time changes nothing,
/// whenever the second call comes.
pub proof fn law_migrate_idempotent(
    s: VaultState,
    collection: Seq<u8>,
    id: Seq<u8>,
    first: u64,
    second: u64,
)
    ensures
        s.migrated(collection, id, first).migrated(collection, id, second) == s.migrated(
            collection,
            id,
            first,
        ),
{
}

/// Delta logs follow versions: a write under a key that has no log, a delta
/// update of a chunk with metadata, a migration and a delete each keep every
/// log as long as the number of versions that followed the first.
pub proof fn law_logs_match_versions(
    s: VaultState,
    collection: Seq<u8>,
    id: Seq<u8>,
    data: Seq<u8>,
    zone: StorageZone,
    now: u64,
)
    requires
        s.logs_match_versions(),
    ensures
        s.delta_log(collection, id).len() == 0 ==> s.with_chunk(
            collection,
            id,
            data,
            zone,
            now,
        ).logs_match_versions(),
        s.meta(collection, id) is Some && s.delta_fits(collection, id) ==> s.with_delta(
            collection,
            id,
            data,
            now,
        ).logs_match_versions(),
        s.migrated(collection, id, now).logs_match_versions(),
        s.deleted(collection, id).logs_match_versions(),
{
    let key = (collection, id);
    if s.delta_log(collection, id).len() == 0 {
        let after = s.with_chunk(collection, id, data, zone, now);
        assert forall|c: Seq<u8>, i: Seq<u8>| #[trigger]
            after.metas.contains_key((c, i)) implies after.delta_log(c, i).len() == after.metas[(
                c,
                i,
            )].version - 1 by {
            if (c, i) != key {
                assert(s.metas.contains_key((c, i)));
            }
        }
    }
    if s.meta(collection, id) is Some && s.delta_fits(collection, id) {
        let after = s.with_delta(collection, id, data, now);
        assert forall|c: Seq<u8>, i: Seq<u8>| #[trigger]
            after.metas.contains_key((c, i)) implies after.delta_log(c, i).len() == after.metas[(
                c,
                i,
            )].version - 1 by {
            assert(s.metas.contains_key((c, i)));
        }
    }
    let moved = s.migrated(collection, id, now);
    assert forall|c: Seq<u8>, i: Seq<u8>| #[trigger]
        moved.metas.contains_key((c, i)) implies moved.delta_log(c, i).len() == moved.metas[(
            c,
            i,
        )].version - 1 by {
        assert(s.metas.contains_key((c, i)));
    }
    let gone = s.deleted(collection, id);
    assert forall|c: Seq<u8>, i: Seq<u8>| #[trigger]
        gone.metas.contains_key((c, i)) implies gone.delta_log(c, i).len() == gone.metas[(
            c,
            i,
        )].version - 1 by {
        assert(s.metas.contains_key((c, i)));
    }
}

/// Delta logs follow versions under a batch that writes under keys
/// without a log. A batch leaves every log as it was.
pub proof fn law_batch_logs(
    s: VaultState,
    collections: Seq<Vec<u8>>,
    ids: Seq<Vec<u8>>,
    values: Seq<Vec<u8>>,
    count: nat,
    now: u64,
)
    requires
        s.logs_match_versions(),
        forall|n: nat|
            n < count ==> (#[trigger] s.delta_log(collections[n as int]@, ids[n as int]@)).len()
                == 0,
    ensures
        s.with_batch(collections, ids, values, count, now).deltas == s.deltas,
        s.with_batch(collections, ids, values, count, now).logs_match_versions(),
    decreases count,
{
    if count > 0 {
        let n = (count - 1) as nat;
        let reached = s.with_batch(collections, ids, values, n, now);
        law_batch_logs(s, collections, ids, values, n, now);
        assert(s.delta_log(collections[n as int]@, ids[n as int]@).len() == 0);
        assert(reached.delta_log(collections[n as int]@, ids[n as int]@) == s.delta_log(
            collections[n as int]@,
            ids[n as int]@,
        ));
        law_logs_match_versions(
            reached,
            collections[n as int]@,
            ids[n as int]@,
            values[n as int]@,
            StorageZone::Hot,
            now,
        );
    }
}

/// Version monotonicity: a delta update of a chunk with metadata raises its
/// version by exactly one, gives its index entry that version, appends the
/// patch to its log and leaves its payload alone.
pub proof fn law_delta_version(
    s: VaultState,
    collection: Seq<u8>,
    id: Seq<u8>,
    patch: Seq<u8>,
    now: u64,
)
    requires
        s.meta(collection, id) is Some,
        s.delta_fits(collection, id),
    ensures
        s.with_delta(collection, id, patch, now).meta(collection, id) is Some,
        s.with_delta(collection, id, patch, now).meta(collection, id).unwrap().version == s.meta(
            collection,
            id,
        ).unwrap().version + 1,
        s.with_delta(collection, id, patch, now).delta_log(collection, id) == s.delta_log(
            collection,
            id,
        ).push(patch),
        s.with_delta(collection, id, patch, now).chunks == s.chunks,
{
}

} // verus!

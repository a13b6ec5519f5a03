use seireitei_vault::stats::EXPECTED_FALSE_POSITIVE_RATE;
use seireitei_vault::types::{
    ChunkMeta, CompressionAlgo, IndexEntry, StorageStats, StorageZone, VaultError,
};
use seireitei_vault::vault::SeireiteiVault;

const ADMIN: &str = "GADMIN";

fn ready() -> SeireiteiVault {
    let mut vault = SeireiteiVault::new();
    assert_eq!(vault.initialize(ADMIN), Ok(()));
    vault
}

fn zeroed() -> StorageStats {
    StorageStats {
        total_entries: 0,
        hot_entries: 0,
        cold_entries: 0,
        total_bytes_stored: 0,
        total_bytes_original: 0,
        compression_ratio: 0,
        bloom_false_positive_rate: 8,
    }
}

#[test]
fn round_trip_returns_the_payload_and_its_length() {
    let mut vault = ready();
    let data: Vec<u8> = vec![0, 255, 7, 7, 0, 1];
    vault.put(ADMIN, b"Proofs", "π-1".as_bytes(), &data, 11).unwrap();
    assert_eq!(vault.get(b"Proofs", "π-1".as_bytes()), data);
    let meta = vault.get_meta(b"Proofs", "π-1".as_bytes()).unwrap();
    assert_eq!(
        meta,
        ChunkMeta {
            compression: CompressionAlgo::Zstd,
            original_size: 24,
            compressed_size: 6,
            checksum: seireitei_vault::hash::simple_hash(&data),
            zone: StorageZone::Hot,
            version: 1,
            created_at: 11,
            updated_at: 11,
        }
    );
}

#[test]
fn empty_payload_round_trips() {
    let mut vault = ready();
    vault.put(ADMIN, b"", b"", &[], 0).unwrap();
    assert!(vault.has(b"", b""));
    assert_eq!(vault.get(b"", b""), Vec::<u8>::new());
    let meta = vault.get_meta(b"", b"").unwrap();
    assert_eq!(meta.compressed_size, 0);
    assert_eq!(meta.original_size, 0);
    assert_eq!(meta.checksum, 0xcbf29ce484222325);
    let stats = vault.get_stats();
    assert_eq!(stats.total_entries, 1);
    assert_eq!(stats.total_bytes_original, 0);
    // nothing stored yet: the ratio keeps its prior value
    assert_eq!(stats.compression_ratio, 0);
}

#[test]
fn getters_on_an_empty_vault_return_defaults() {
    let vault = SeireiteiVault::new();
    assert_eq!(vault.get(b"Users", b"U1"), Vec::<u8>::new());
    assert_eq!(vault.get_meta(b"Users", b"U1"), None);
    assert_eq!(vault.get_deltas(b"Users", b"U1"), Vec::<Vec<u8>>::new());
    assert_eq!(vault.get_index(b"Users"), Vec::<IndexEntry>::new());
    assert!(!vault.has(b"Users", b"U1"));
    assert!(!vault.bloom_check(b"Users", b"U1"));
    assert_eq!(vault.get_stats(), zeroed());
    assert_eq!(EXPECTED_FALSE_POSITIVE_RATE, 8);
}

#[test]
fn mutations_before_initialization_are_refused() {
    let mut vault = SeireiteiVault::new();
    assert_eq!(vault.put(ADMIN, b"Users", b"U1", &[1], 1), Err(VaultError::NotInitialized));
    assert_eq!(
        vault.put_zone(ADMIN, b"Users", b"U1", &[1], StorageZone::Cold, 1),
        Err(VaultError::NotInitialized)
    );
    assert_eq!(
        vault.batch_put(ADMIN, &vec![], &vec![], &vec![], 1),
        Err(VaultError::NotInitialized)
    );
    assert_eq!(vault.delta_update(ADMIN, b"Users", b"U1", &[1], 1), Err(VaultError::NotInitialized));
    assert_eq!(vault.migrate_to_cold(ADMIN, b"Users", b"U1", 1), Err(VaultError::NotInitialized));
    assert_eq!(vault.delete(ADMIN, b"Users", b"U1"), Err(VaultError::NotInitialized));
    assert!(!vault.has(b"Users", b"U1"));
    assert_eq!(vault.get_stats(), zeroed());
}

#[test]
fn second_initialization_is_refused() {
    let mut vault = ready();
    vault.put(ADMIN, b"Users", b"U1", &[1, 2], 1).unwrap();
    let before = vault.get_stats();
    assert_eq!(vault.initialize("GOTHER"), Err(VaultError::AlreadyInitialized));
    assert_eq!(vault.initialize(ADMIN), Err(VaultError::AlreadyInitialized));
    // the first administrator stays, and nothing was reset
    assert_eq!(vault.put("GOTHER", b"Users", b"U2", &[1], 2), Err(VaultError::Unauthorized));
    assert_eq!(vault.get_stats(), before);
    assert!(vault.bloom_check(b"Users", b"U1"));
}

#[test]
fn strangers_are_refused_and_change_nothing() {
    let mut vault = ready();
    vault.put(ADMIN, b"Users", b"U1", &[1, 2, 3], 1).unwrap();
    let stats = vault.get_stats();
    let index = vault.get_index(b"Users");

    assert_eq!(vault.put("GEVE", b"Users", b"U2", &[9], 2), Err(VaultError::Unauthorized));
    assert_eq!(
        vault.put_zone("GEVE", b"Users", b"U2", &[9], StorageZone::Cold, 2),
        Err(VaultError::Unauthorized)
    );
    assert_eq!(
        vault.batch_put("GEVE", &vec![b"Users".to_vec()], &vec![b"U2".to_vec()], &vec![vec![9]], 2),
        Err(VaultError::Unauthorized)
    );
    assert_eq!(vault.delta_update("GEVE", b"Users", b"U1", &[9], 2), Err(VaultError::Unauthorized));
    assert_eq!(vault.migrate_to_cold("GEVE", b"Users", b"U1", 2), Err(VaultError::Unauthorized));
    assert_eq!(vault.delete("GEVE", b"Users", b"U1"), Err(VaultError::Unauthorized));
    // the empty name is a stranger too
    assert_eq!(vault.delete("", b"Users", b"U1"), Err(VaultError::Unauthorized));

    assert_eq!(vault.get(b"Users", b"U1"), vec![1, 2, 3]);
    assert!(!vault.has(b"Users", b"U2"));
    assert_eq!(vault.get_stats(), stats);
    assert_eq!(vault.get_index(b"Users"), index);
    assert_eq!(vault.get_meta(b"Users", b"U1").unwrap().version, 1);
    assert_eq!(vault.get_deltas(b"Users", b"U1"), Vec::<Vec<u8>>::new());
}

#[test]
fn authorization_is_checked_before_the_request() {
    let mut vault = ready();
    // unequal lengths and a missing chunk, but the caller is refused first
    assert_eq!(
        vault.batch_put("GEVE", &vec![b"Users".to_vec()], &vec![], &vec![], 2),
        Err(VaultError::Unauthorized)
    );
    assert_eq!(vault.delta_update("GEVE", b"Users", b"none", &[9], 2), Err(VaultError::Unauthorized));
}

#[test]
fn batch_with_unequal_lengths_writes_nothing() {
    let mut vault = ready();
    let collections = vec![b"Users".to_vec(), b"Users".to_vec()];
    let ids = vec![b"B1".to_vec(), b"B2".to_vec()];
    let values: Vec<Vec<u8>> = vec![vec![1], vec![2], vec![3]];
    assert_eq!(
        vault.batch_put(ADMIN, &collections, &ids, &values, 5),
        Err(VaultError::SizeMismatch)
    );
    assert!(!vault.has(b"Users", b"B1"));
    assert!(!vault.has(b"Users", b"B2"));
    assert!(!vault.bloom_check(b"Users", b"B1"));
    assert_eq!(vault.get_index(b"Users"), Vec::<IndexEntry>::new());
    assert_eq!(vault.get_stats(), zeroed());

    // the ids may be the short one as well
    let ids_short = vec![b"B1".to_vec()];
    let values_two: Vec<Vec<u8>> = vec![vec![1], vec![2]];
    assert_eq!(
        vault.batch_put(ADMIN, &collections, &ids_short, &values_two, 5),
        Err(VaultError::SizeMismatch)
    );
    assert_eq!(vault.get_stats(), zeroed());
}

#[test]
fn empty_batch_succeeds_and_changes_nothing() {
    let mut vault = ready();
    assert_eq!(vault.batch_put(ADMIN, &vec![], &vec![], &vec![], 5), Ok(()));
    assert_eq!(vault.get_stats(), zeroed());
}

#[test]
fn batch_applies_entries_in_order() {
    let mut vault = ready();
    let collections = vec![b"Users".to_vec(), b"Users".to_vec(), b"Users".to_vec()];
    let ids = vec![b"B1".to_vec(), b"B2".to_vec(), b"B1".to_vec()];
    let values: Vec<Vec<u8>> = vec![vec![1], vec![2, 2], vec![3, 3, 3]];
    vault.batch_put(ADMIN, &collections, &ids, &values, 9).unwrap();
    // the later entry of B1 overwrote the earlier one
    assert_eq!(vault.get(b"Users", b"B1"), vec![3, 3, 3]);
    assert_eq!(vault.get(b"Users", b"B2"), vec![2, 2]);
    let index = vault.get_index(b"Users");
    assert_eq!(index.len(), 2);
    assert_eq!(index[0].id, b"B1");
    assert_eq!(index[0].compressed_size, 3);
    assert_eq!(index[1].id, b"B2");
    // the statistics count B1 once, with its last payload
    let stats = vault.get_stats();
    assert_eq!(stats.total_entries, 2);
    assert_eq!(stats.hot_entries, 2);
    assert_eq!(stats.total_bytes_stored, 5);
    assert_eq!(stats.total_bytes_original, 20);
    assert_eq!(stats.compression_ratio, 75);
    assert_eq!(vault.get_meta(b"Users", b"B2").unwrap().created_at, 9);
}

#[test]
fn delta_update_of_a_missing_chunk_is_not_found() {
    let mut vault = ready();
    assert_eq!(vault.delta_update(ADMIN, b"Users", b"U1", &[1], 3), Err(VaultError::NotFound));
    assert_eq!(vault.get_deltas(b"Users", b"U1"), Vec::<Vec<u8>>::new());
    vault.put(ADMIN, b"Users", b"U1", &[1], 3).unwrap();
    vault.delete(ADMIN, b"Users", b"U1").unwrap();
    assert_eq!(vault.delta_update(ADMIN, b"Users", b"U1", &[1], 4), Err(VaultError::NotFound));
}

#[test]
fn each_delta_update_raises_the_version_by_one() {
    let mut vault = ready();
    vault.put(ADMIN, b"Users", b"U1", &[1, 2, 3], 10).unwrap();
    for n in 1..=5u32 {
        let patch = vec![n as u8; n as usize];
        vault.delta_update(ADMIN, b"Users", b"U1", &patch, 10 + n as u64).unwrap();
        let meta = vault.get_meta(b"Users", b"U1").unwrap();
        assert_eq!(meta.version, 1 + n);
        assert_eq!(meta.updated_at, 10 + n as u64);
        assert_eq!(meta.created_at, 10);
    }
    assert_eq!(
        vault.get_deltas(b"Users", b"U1"),
        vec![vec![1], vec![2, 2], vec![3, 3, 3], vec![4, 4, 4, 4], vec![5, 5, 5, 5, 5]]
    );
    // the payload and its summary are untouched
    assert_eq!(vault.get(b"Users", b"U1"), vec![1, 2, 3]);
    let meta = vault.get_meta(b"Users", b"U1").unwrap();
    assert_eq!(meta.compressed_size, 3);
    assert_eq!(meta.checksum, 0xd0aa6218672cf5ab);
    assert_eq!(vault.get_stats().total_entries, 1);
}

#[test]
fn overwrite_resets_the_version_and_keeps_the_log() {
    let mut vault = ready();
    vault.put(ADMIN, b"Users", b"U1", &[1, 2, 3], 10).unwrap();
    vault.delta_update(ADMIN, b"Users", b"U1", &[7], 11).unwrap();
    vault.put(ADMIN, b"Users", b"U1", &[4, 5], 12).unwrap();
    let meta = vault.get_meta(b"Users", b"U1").unwrap();
    assert_eq!(meta.version, 1);
    assert_eq!(meta.compressed_size, 2);
    assert_eq!(meta.created_at, 12);
    assert_eq!(vault.get(b"Users", b"U1"), vec![4, 5]);
    assert_eq!(vault.get_deltas(b"Users", b"U1"), vec![vec![7]]);
    let stats = vault.get_stats();
    assert_eq!(stats.total_entries, 1);
    assert_eq!(stats.total_bytes_stored, 2);
    // one index entry, replaced in place
    let index = vault.get_index(b"Users");
    assert_eq!(
        index,
        vec![IndexEntry {
            id: b"U1".to_vec(),
            zone: StorageZone::Hot,
            compressed_size: 2,
            version: 1,
        }]
    );
}

#[test]
fn migration_is_idempotent() {
    let mut vault = ready();
    vault.put(ADMIN, b"Missions", b"M1", &[1, 2, 3, 4], 10).unwrap();
    vault.put(ADMIN, b"Missions", b"M2", &[1], 10).unwrap();
    vault.migrate_to_cold(ADMIN, b"Missions", b"M1", 20).unwrap();
    let stats_once = vault.get_stats();
    let meta_once = vault.get_meta(b"Missions", b"M1").unwrap();
    let index_once = vault.get_index(b"Missions");
    vault.migrate_to_cold(ADMIN, b"Missions", b"M1", 30).unwrap();
    assert_eq!(vault.get_stats(), stats_once);
    assert_eq!(vault.get_meta(b"Missions", b"M1").unwrap(), meta_once);
    assert_eq!(vault.get_index(b"Missions"), index_once);
    assert_eq!(meta_once.zone, StorageZone::Cold);
    assert_eq!(meta_once.updated_at, 20);
    assert_eq!(stats_once.hot_entries, 1);
    assert_eq!(stats_once.cold_entries, 1);
    assert_eq!(stats_once.total_entries, 2);
    assert_eq!(index_once[0].zone, StorageZone::Cold);
    assert_eq!(index_once[1].zone, StorageZone::Hot);
}

#[test]
fn migrating_a_missing_chunk_changes_nothing() {
    let mut vault = ready();
    vault.put(ADMIN, b"Missions", b"M1", &[1], 10).unwrap();
    let stats = vault.get_stats();
    assert_eq!(vault.migrate_to_cold(ADMIN, b"Missions", b"none", 20), Ok(()));
    assert_eq!(vault.get_stats(), stats);
    assert_eq!(vault.get_index(b"Missions").len(), 1);
}

#[test]
fn deleting_a_missing_chunk_changes_no_statistics() {
    let mut vault = ready();
    vault.put(ADMIN, b"Users", b"U1", &[1, 2], 10).unwrap();
    let stats = vault.get_stats();
    assert_eq!(vault.delete(ADMIN, b"Users", b"none"), Ok(()));
    assert_eq!(vault.delete(ADMIN, b"Nowhere", b"U1"), Ok(()));
    assert_eq!(vault.get_stats(), stats);
    assert!(vault.has(b"Users", b"U1"));
    assert_eq!(vault.get_index(b"Users").len(), 1);
}

#[test]
fn delete_removes_payload_metadata_log_and_index_entry() {
    let mut vault = ready();
    vault.put(ADMIN, b"Users", b"U1", &[1, 2], 10).unwrap();
    vault.put(ADMIN, b"Users", b"U2", &[3], 10).unwrap();
    vault.delta_update(ADMIN, b"Users", b"U1", &[9], 11).unwrap();
    vault.delete(ADMIN, b"Users", b"U1").unwrap();
    assert!(!vault.has(b"Users", b"U1"));
    assert_eq!(vault.get(b"Users", b"U1"), Vec::<u8>::new());
    assert_eq!(vault.get_meta(b"Users", b"U1"), None);
    assert_eq!(vault.get_deltas(b"Users", b"U1"), Vec::<Vec<u8>>::new());
    let index = vault.get_index(b"Users");
    assert_eq!(index.len(), 1);
    assert_eq!(index[0].id, b"U2");
    let stats = vault.get_stats();
    assert_eq!(stats.total_entries, 1);
    assert_eq!(stats.hot_entries, 1);
    assert_eq!(stats.total_bytes_stored, 1);
    assert_eq!(stats.total_bytes_original, 4);
    assert_eq!(stats.compression_ratio, 75);
    // the other chunk is as it was
    assert_eq!(vault.get(b"Users", b"U2"), vec![3]);
}

#[test]
fn deleted_key_still_tests_positive() {
    let mut vault = ready();
    vault.put(ADMIN, b"Users", b"U1", &[1, 2], 10).unwrap();
    assert!(vault.bloom_check(b"Users", b"U1"));
    vault.delete(ADMIN, b"Users", b"U1").unwrap();
    assert!(!vault.has(b"Users", b"U1"));
    // the filter never clears a bit
    assert!(vault.bloom_check(b"Users", b"U1"));
}

#[test]
fn stored_keys_never_test_negative() {
    let mut vault = ready();
    let mut keys: Vec<(Vec<u8>, Vec<u8>)> = Vec::new();
    for n in 0..40usize {
        let collection = b"c".repeat(n % 7);
        let id = format!("{}{}", "i".repeat(n), n).into_bytes();
        vault.put(ADMIN, &collection, &id, &[n as u8], n as u64).unwrap();
        keys.push((collection, id));
    }
    for n in (0..40usize).step_by(3) {
        vault.delete(ADMIN, &keys[n].0, &keys[n].1).unwrap();
    }
    for (n, (collection, id)) in keys.iter().enumerate() {
        assert_eq!(vault.has(collection, id), n % 3 != 0);
        assert!(vault.bloom_check(collection, id));
    }
}

#[test]
fn unrelated_key_tests_negative() {
    let mut vault = ready();
    vault.put(ADMIN, b"Users", b"U1", &[1], 1).unwrap();
    vault.put(ADMIN, b"Users", b"BLOOM_TEST", &[1], 1).unwrap();
    vault.put(ADMIN, b"a", b"b", &[1], 1).unwrap();
    assert!(!vault.bloom_check(b"Users", b"DEFINITELY_NOT_HERE"));
    assert!(!vault.bloom_check(b"Users", b"U001"));
    assert!(!vault.bloom_check(b"", b""));
}

#[test]
fn keys_of_equal_lengths_share_their_bits() {
    let mut vault = ready();
    vault.put(ADMIN, b"Users", b"U001", &[1], 1).unwrap();
    // same lengths, other characters: a false positive of the filter
    assert!(vault.bloom_check(b"Posts", b"P001"));
    assert!(!vault.has(b"Posts", b"P001"));
}

#[test]
fn entry_count_equals_the_number_of_chunks() {
    let mut vault = ready();
    let ids: [&[u8]; 5] = [b"a", b"b", b"c", b"d", b"e"];
    let mut expected: u32 = 0;
    for id in ids.iter() {
        vault.put(ADMIN, b"Users", id, &[1, 2, 3], 1).unwrap();
        expected += 1;
        assert_eq!(vault.get_stats().total_entries, expected);
    }
    vault.delta_update(ADMIN, b"Users", b"a", &[1], 2).unwrap();
    vault.migrate_to_cold(ADMIN, b"Users", b"b", 2).unwrap();
    assert_eq!(vault.get_stats().total_entries, expected);
    for id in ids.iter() {
        vault.delete(ADMIN, b"Users", id).unwrap();
        expected -= 1;
        assert_eq!(vault.get_stats().total_entries, expected);
        let existing = ids.iter().filter(|i| vault.has(b"Users", i)).count();
        assert_eq!(existing as u32, expected);
    }
    let stats = vault.get_stats();
    assert_eq!(stats.hot_entries, 0);
    assert_eq!(stats.cold_entries, 0);
    assert_eq!(stats.total_bytes_stored, 0);
    assert_eq!(stats.total_bytes_original, 0);
    // nothing is stored any more: the ratio keeps its last value
    assert_eq!(stats.compression_ratio, 75);
}

#[test]
fn example_scenario() {
    let mut vault = ready();
    vault.put(ADMIN, b"Users", b"U1", &[1, 2, 3, 4, 5], 100).unwrap();
    let stats = vault.get_stats();
    assert_eq!(stats.total_entries, 1);
    assert_eq!(stats.hot_entries, 1);
    assert_eq!(stats.cold_entries, 0);
    assert_eq!(stats.total_bytes_stored, 5);
    assert_eq!(stats.total_bytes_original, 20);
    assert_eq!(stats.compression_ratio, 75);
    assert_eq!(stats.bloom_false_positive_rate, 8);
    assert_eq!(vault.get_meta(b"Users", b"U1").unwrap().compressed_size, 5);

    vault.migrate_to_cold(ADMIN, b"Users", b"U1", 101).unwrap();
    let stats = vault.get_stats();
    assert_eq!(stats.hot_entries, 0);
    assert_eq!(stats.cold_entries, 1);
    assert_eq!(stats.total_entries, 1);

    vault.delete(ADMIN, b"Users", b"U1").unwrap();
    let stats = vault.get_stats();
    assert_eq!(stats.total_entries, 0);
    assert_eq!(stats.cold_entries, 0);
    assert!(!vault.has(b"Users", b"U1"));
    assert!(vault.bloom_check(b"Users", b"U1"));
}

#[test]
fn index_keeps_insertion_order_across_collections() {
    let mut vault = ready();
    vault.put(ADMIN, b"Users", b"z", &[1], 1).unwrap();
    vault.put(ADMIN, b"Posts", b"p", &[1, 2], 1).unwrap();
    vault.put(ADMIN, b"Users", b"a", &[1, 2, 3], 1).unwrap();
    vault.put_zone(ADMIN, b"Users", b"z", &[9, 9], StorageZone::Cold, 2).unwrap();
    let users = vault.get_index(b"Users");
    assert_eq!(
        users,
        vec![
            IndexEntry {
                id: b"z".to_vec(),
                zone: StorageZone::Cold,
                compressed_size: 2,
                version: 1
            },
            IndexEntry {
                id: b"a".to_vec(),
                zone: StorageZone::Hot,
                compressed_size: 3,
                version: 1
            },
        ]
    );
    assert_eq!(vault.get_index(b"Posts").len(), 1);
    assert_eq!(vault.get_index(b"users"), Vec::<IndexEntry>::new());
}

#[test]
fn index_entry_follows_a_delta_update() {
    let mut vault = ready();
    vault.put(ADMIN, b"Users", b"DELTA_USR", &[1, 2, 3, 4, 5], 1).unwrap();
    vault.put(ADMIN, b"Users", b"other", &[1], 1).unwrap();
    vault.delta_update(ADMIN, b"Users", b"DELTA_USR", &[99], 2).unwrap();
    assert_eq!(vault.get_meta(b"Users", b"DELTA_USR").unwrap().version, 2);
    assert_eq!(
        vault.get_index(b"Users"),
        vec![
            IndexEntry {
                id: b"DELTA_USR".to_vec(),
                zone: StorageZone::Hot,
                compressed_size: 5,
                version: 2,
            },
            IndexEntry {
                id: b"other".to_vec(),
                zone: StorageZone::Hot,
                compressed_size: 1,
                version: 1,
            },
        ]
    );
    vault.delta_update(ADMIN, b"Users", b"DELTA_USR", &[98], 3).unwrap();
    assert_eq!(vault.get_index(b"Users")[0].version, 3);
    vault.migrate_to_cold(ADMIN, b"Users", b"DELTA_USR", 4).unwrap();
    assert_eq!(vault.get_index(b"Users")[0].version, 3);
    assert_eq!(vault.get_index(b"Users")[0].zone, StorageZone::Cold);
}

#[test]
fn overwrite_counts_the_key_once() {
    let mut vault = ready();
    vault.put(ADMIN, b"Users", b"U1", &[1, 2, 3, 4, 5], 1).unwrap();
    vault.put(ADMIN, b"Users", b"U1", &[9, 9], 2).unwrap();
    assert_eq!(vault.get(b"Users", b"U1"), vec![9, 9]);
    assert_eq!(vault.get_index(b"Users").len(), 1);
    let stats = vault.get_stats();
    assert_eq!(stats.total_entries, 1);
    assert_eq!(stats.hot_entries, 1);
    assert_eq!(stats.cold_entries, 0);
    assert_eq!(stats.total_bytes_stored, 2);
    assert_eq!(stats.total_bytes_original, 8);
    assert_eq!(stats.compression_ratio, 75);
}

#[test]
fn overwrite_into_another_zone_moves_the_count() {
    let mut vault = ready();
    vault.put(ADMIN, b"Users", b"U1", &[1, 2, 3], 1).unwrap();
    vault.put_zone(ADMIN, b"Users", b"U1", &[1, 2, 3], StorageZone::Cold, 2).unwrap();
    assert_eq!(vault.get_meta(b"Users", b"U1").unwrap().zone, StorageZone::Cold);
    let stats = vault.get_stats();
    assert_eq!(stats.total_entries, 1);
    assert_eq!(stats.hot_entries, 0);
    assert_eq!(stats.cold_entries, 1);
    assert_eq!(stats.total_bytes_stored, 3);
    assert_eq!(stats.total_bytes_original, 12);
    // and back
    vault.put_zone(ADMIN, b"Users", b"U1", &[4], StorageZone::Hot, 3).unwrap();
    let stats = vault.get_stats();
    assert_eq!(stats.total_entries, 1);
    assert_eq!(stats.hot_entries, 1);
    assert_eq!(stats.cold_entries, 0);
    assert_eq!(stats.total_bytes_stored, 1);
}

#[test]
fn batch_naming_a_key_twice_counts_it_once() {
    let mut vault = ready();
    let collections = vec![b"Users".to_vec(), b"Users".to_vec()];
    let ids = vec![b"B1".to_vec(), b"B1".to_vec()];
    let values: Vec<Vec<u8>> = vec![vec![1], vec![2, 2]];
    vault.batch_put(ADMIN, &collections, &ids, &values, 1).unwrap();
    assert_eq!(vault.get(b"Users", b"B1"), vec![2, 2]);
    assert_eq!(vault.get_index(b"Users").len(), 1);
    let stats = vault.get_stats();
    assert_eq!(stats.total_entries, 1);
    assert_eq!(stats.hot_entries, 1);
    assert_eq!(stats.total_bytes_stored, 2);
    assert_eq!(stats.total_bytes_original, 8);
}

#[test]
fn statistics_follow_the_chunks_through_any_sequence() {
    let mut vault = ready();
    let ids: [&[u8]; 6] = [b"a", b"b", b"c", b"a", b"b", b"a"];
    for (n, id) in ids.iter().enumerate() {
        let data = vec![7u8; n + 1];
        let zone = if n % 2 == 0 { StorageZone::Hot } else { StorageZone::Cold };
        vault.put_zone(ADMIN, b"Users", id, &data, zone, n as u64).unwrap();
    }
    vault.delta_update(ADMIN, b"Users", b"c", &[1], 9).unwrap();
    vault.migrate_to_cold(ADMIN, b"Users", b"c", 9).unwrap();
    vault.delete(ADMIN, b"Users", b"b").unwrap();
    vault.delete(ADMIN, b"Users", b"b").unwrap();
    // a holds 6 bytes (cold), c holds 3 bytes (cold)
    let stats = vault.get_stats();
    assert_eq!(stats.total_entries, 2);
    assert_eq!(stats.hot_entries, 0);
    assert_eq!(stats.cold_entries, 2);
    assert_eq!(stats.total_bytes_stored, 9);
    assert_eq!(stats.total_bytes_original, 36);
    let index = vault.get_index(b"Users");
    assert_eq!(index.len(), 2);
    for entry in index.iter() {
        let meta = vault.get_meta(b"Users", &entry.id).unwrap();
        assert_eq!(entry.zone, meta.zone);
        assert_eq!(entry.compressed_size, meta.compressed_size);
        assert_eq!(entry.version, meta.version);
    }
}

#[test]
fn keys_need_not_be_text() {
    let mut vault = ready();
    let collection: [u8; 3] = [0xff, 0x00, 0xc3];
    let id: [u8; 2] = [0x80, 0x28];
    vault.put(ADMIN, &collection, &id, &[1, 2], 1).unwrap();
    assert!(vault.has(&collection, &id));
    assert!(vault.bloom_check(&collection, &id));
    assert_eq!(vault.get(&collection, &id), vec![1, 2]);
    assert_eq!(vault.get_index(&collection)[0].id, id.to_vec());
    assert!(!vault.has(&collection, &[0x80, 0x29]));
    vault.delete(ADMIN, &collection, &id).unwrap();
    assert!(!vault.has(&collection, &id));
}

#[test]
fn chunk_and_collection_names_do_not_mix() {
    let mut vault = ready();
    vault.put(ADMIN, b"ab", b"c", &[1], 1).unwrap();
    assert!(!vault.has(b"a", b"bc"));
    assert!(!vault.has(b"c", b"ab"));
    assert!(vault.has(b"ab", b"c"));
    assert_eq!(vault.get_index(b"a"), Vec::<IndexEntry>::new());
}

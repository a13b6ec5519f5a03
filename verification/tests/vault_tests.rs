use seireitei_vault::types::StorageZone;
use seireitei_vault::vault::SeireiteiVault;

const ADMIN: &str = "GADMIN";
const NOW: u64 = 1_700_000_000;

fn setup() -> SeireiteiVault {
    let mut vault = SeireiteiVault::new();
    vault.initialize(ADMIN).unwrap();
    vault
}

// ── Basic CRUD ───────────────────────────────────────────────────

#[test]
fn test_put_and_get() {
    let mut vault = setup();

    let collection = b"Users";
    let id = b"U001";
    let data: Vec<u8> = vec![10, 20, 30, 40, 50];

    vault.put(ADMIN, collection, id, &data, NOW).unwrap();

    let fetched = vault.get(collection, id);
    assert_eq!(fetched, data);
}

#[test]
fn test_has_existing_and_missing() {
    let mut vault = setup();

    let collection = b"Posts";
    let id = b"P001";
    let data: Vec<u8> = vec![1, 2, 3];

    // Before put
    assert!(!vault.has(collection, id));

    vault.put(ADMIN, collection, id, &data, NOW).unwrap();

    // After put
    assert!(vault.has(collection, id));

    // Non-existent
    let missing = b"P999";
    assert!(!vault.has(collection, missing));
}

#[test]
fn test_delete_entry() {
    let mut vault = setup();

    let collection = b"Users";
    let id = b"U_DEL";
    let data: Vec<u8> = vec![99, 88, 77];

    vault.put(ADMIN, collection, id, &data, NOW).unwrap();
    assert!(vault.has(collection, id));

    vault.delete(ADMIN, collection, id).unwrap();
    assert!(!vault.has(collection, id));

    // Stats should reflect deletion
    let stats = vault.get_stats();
    assert_eq!(stats.total_entries, 0);
}

// ── Bloom Filter ─────────────────────────────────────────────────

#[test]
fn test_bloom_filter_positive() {
    let mut vault = setup();

    let collection = b"Users";
    let id = b"BLOOM_TEST";
    let data: Vec<u8> = vec![1, 2, 3];

    vault.put(ADMIN, collection, id, &data, NOW).unwrap();

    // Should return true (entry exists)
    assert!(vault.bloom_check(collection, id));
}

#[test]
fn test_bloom_filter_negative() {
    let vault = setup();

    let collection = b"Users";
    let missing_id = b"DEFINITELY_NOT_HERE";

    // Should return false (no entries added)
    assert!(!vault.bloom_check(collection, missing_id));
}

// ── Hot/Cold Zones ───────────────────────────────────────────────

#[test]
fn test_put_zone_hot_and_cold() {
    let mut vault = setup();

    let collection = b"Posts";
    let hot_id = b"HOT_01";
    let cold_id = b"COLD_01";
    let data: Vec<u8> = vec![5, 10, 15];

    vault.put_zone(ADMIN, collection, hot_id, &data, StorageZone::Hot, NOW).unwrap();
    vault.put_zone(ADMIN, collection, cold_id, &data, StorageZone::Cold, NOW).unwrap();

    let stats = vault.get_stats();
    assert_eq!(stats.hot_entries, 1);
    assert_eq!(stats.cold_entries, 1);
    assert_eq!(stats.total_entries, 2);
}

#[test]
fn test_migrate_hot_to_cold() {
    let mut vault = setup();

    let collection = b"Missions";
    let id = b"M_MIGRATE";
    let data: Vec<u8> = vec![7, 14, 21];

    // Start in Hot
    vault.put(ADMIN, collection, id, &data, NOW).unwrap();
    let meta = vault.get_meta(collection, id).unwrap();
    assert_eq!(meta.zone, StorageZone::Hot);

    // Migrate to Cold
    vault.migrate_to_cold(ADMIN, collection, id, NOW + 1).unwrap();
    let meta_after = vault.get_meta(collection, id).unwrap();
    assert_eq!(meta_after.zone, StorageZone::Cold);

    // Stats updated
    let stats = vault.get_stats();
    assert_eq!(stats.hot_entries, 0);
    assert_eq!(stats.cold_entries, 1);
}

// ── Batch Operations ─────────────────────────────────────────────

#[test]
fn test_batch_put() {
    let mut vault = setup();

    let collections = vec![b"Users".to_vec(), b"Users".to_vec(), b"Posts".to_vec()];
    let ids = vec![b"B1".to_vec(), b"B2".to_vec(), b"B3".to_vec()];
    let values: Vec<Vec<u8>> = vec![vec![1, 1], vec![2, 2], vec![3, 3]];

    vault.batch_put(ADMIN, &collections, &ids, &values, NOW).unwrap();

    // All three should exist
    assert!(vault.has(b"Users", b"B1"));
    assert!(vault.has(b"Posts", b"B3"));

    let stats = vault.get_stats();
    assert_eq!(stats.total_entries, 3);
}

// ── Delta Updates ────────────────────────────────────────────────

#[test]
fn test_delta_update() {
    let mut vault = setup();

    let collection = b"Users";
    let id = b"DELTA_USR";
    let data: Vec<u8> = vec![1, 2, 3, 4, 5];

    vault.put(ADMIN, collection, id, &data, NOW).unwrap();

    // Apply delta patch
    let patch: Vec<u8> = vec![99];
    vault.delta_update(ADMIN, collection, id, &patch, NOW + 1).unwrap();

    // Check version bumped
    let meta = vault.get_meta(collection, id).unwrap();
    assert_eq!(meta.version, 2);

    // Check deltas retrievable
    let deltas = vault.get_deltas(collection, id);
    assert_eq!(deltas.len(), 1);
}

// ── Metadata & Index ─────────────────────────────────────────────

#[test]
fn test_metadata_stored() {
    let mut vault = setup();

    let collection = b"Donations";
    let id = b"D001";
    let data: Vec<u8> = vec![10, 20, 30];

    vault.put(ADMIN, collection, id, &data, NOW).unwrap();

    let meta = vault.get_meta(collection, id);
    assert!(meta.is_some());

    let m = meta.unwrap();
    assert_eq!(m.compressed_size, 3);
    assert_eq!(m.version, 1);
    assert_eq!(m.zone, StorageZone::Hot);
}

#[test]
fn test_collection_index() {
    let mut vault = setup();

    let collection = b"Users";

    vault.put(ADMIN, collection, b"IX1", &[1], NOW).unwrap();
    vault.put(ADMIN, collection, b"IX2", &[2], NOW).unwrap();

    let index = vault.get_index(collection);
    assert_eq!(index.len(), 2);
}

// ── Storage Stats ────────────────────────────────────────────────

#[test]
fn test_storage_stats_accuracy() {
    let mut vault = setup();

    let collection = b"Stats_Test";
    let data: Vec<u8> = vec![1, 2, 3, 4, 5, 6, 7, 8, 9, 10];

    vault.put(ADMIN, collection, b"S1", &data, NOW).unwrap();
    vault.put(ADMIN, collection, b"S2", &data, NOW).unwrap();

    let stats = vault.get_stats();
    assert_eq!(stats.total_entries, 2);
    assert_eq!(stats.total_bytes_stored, 20); // 10 bytes * 2
    assert_eq!(stats.hot_entries, 2);
    assert!(stats.compression_ratio > 0);
}

//! The records the engine keeps: zones, compression tags, chunk metadata,
//! index entries, storage statistics, storage keys and errors.

use vstd::prelude::*;
use vstd::slice::slice_to_vec;

verus! {

/// Placement of a chunk: frequently accessed or archival.
#[derive(Clone, Copy, Debug, PartialEq, Eq, Structural)]
pub enum StorageZone {
    Hot,
    Cold,
}

/// Tag naming how the caller compressed a payload before handing it over.
#[derive(Clone, Copy, Debug, PartialEq, Eq, Structural)]
pub enum CompressionAlgo {
    Uncompressed,
    Zstd,
    Compact,
}

/// Metadata kept beside every chunk.
#[derive(Clone, Copy, Debug, PartialEq, Eq, Structural)]
pub struct ChunkMeta {
    pub compression: CompressionAlgo,
    pub original_size: u32,
    pub compressed_size: u32,
    pub checksum: u64,
    pub zone: StorageZone,
    pub version: u32,
    pub created_at: u64,
    pub updated_at: u64,
}

/// Running totals over the chunks that currently exist.
#[derive(Clone, Copy, Debug, PartialEq, Eq, Structural)]
pub struct StorageStats {
    pub total_entries: u32,
    pub hot_entries: u32,
    pub cold_entries: u32,
    pub total_bytes_stored: u64,
    pub total_bytes_original: u64,
    pub compression_ratio: u32,
    pub bloom_false_positive_rate: u32,
}

/// Whether two byte strings are the same.
pub fn same_bytes(a: &[u8], b: &[u8]) -> (equal: bool)
    ensures
        equal == (a@ == b@),
{
    if a.len() != b.len() {
        return false;
    }
    let mut i: usize = 0;
    while i < a.len()
        invariant
            i <= a.len(),
            a.len() == b.len(),
            a@.take(i as int) == b@.take(i as int),
        decreases a.len() - i,
    {
        if a[i] != b[i] {
            return false;
        }
        proof {
            assert(a@.take(i + 1) =~= a@.take(i as int).push(a@[i as int]));
            assert(b@.take(i + 1) =~= b@.take(i as int).push(b@[i as int]));
        }
        i += 1;
    }
    proof {
        assert(a@.take(i as int) =~= a@);
        assert(b@.take(i as int) =~= b@);
    }
    true
}

/// Summary of one chunk in its collection's index.
#[derive(Clone, Debug, PartialEq, Eq)]
pub struct IndexEntry {
    pub id: Vec<u8>,
    pub zone: StorageZone,
    pub compressed_size: u32,
    pub version: u32,
}

/// What an index entry says, with its id as a sequence of bytes.
pub struct IndexEntryView {
    pub id: Seq<u8>,
    pub zone: StorageZone,
    pub compressed_size: u32,
    pub version: u32,
}

impl View for IndexEntry {
    type V = IndexEntryView;

    open spec fn view(&self) -> IndexEntryView {
        IndexEntryView {
            id: self.id@,
            zone: self.zone,
            compressed_size: self.compressed_size,
            version: self.version,
        }
    }
}

impl IndexEntry {
    /// A copy of the entry.
    pub fn duplicate(&self) -> (copy: IndexEntry)
        ensures
            copy@ == self@,
    {
        IndexEntry {
            id: slice_to_vec(self.id.as_slice()),
            zone: self.zone,
            compressed_size: self.compressed_size,
            version: self.version,
        }
    }
}

/// The views of a list of index entries, in order.
pub open spec fn entry_views(entries: Seq<IndexEntry>) -> Seq<IndexEntryView> {
    entries.map_values(|e: IndexEntry| e@)
}

/// The index entry that mirrors `meta` for the chunk `id`.
pub open spec fn entry_of(id: Seq<u8>, meta: ChunkMeta) -> IndexEntryView {
    IndexEntryView {
        id,
        zone: meta.zone,
        compressed_size: meta.compressed_size,
        version: meta.version,
    }
}

/// Address of one record in the store. Each variant is a namespace of its own.
#[derive(Clone, Debug, PartialEq, Eq)]
pub enum DataKey {
    /// `(collection, id)`: the payload of a chunk.
    Chunk(Vec<u8>, Vec<u8>),
    /// `(collection, id)`: the metadata of a chunk.
    Meta(Vec<u8>, Vec<u8>),
    /// `collection`: the index of a collection.
    CollectionIndex(Vec<u8>),
    /// The bit array of the Bloom filter.
    BloomFilter,
    /// The seed of the Bloom filter.
    BloomSeed,
    /// The storage statistics.
    Stats,
    /// The administrator.
    Admin,
    /// `(collection, id)`: the delta log of a chunk.
    DeltaLog(Vec<u8>, Vec<u8>),
}

/// A storage key with its names as sequences of bytes.
pub enum KeyView {
    Chunk(Seq<u8>, Seq<u8>),
    Meta(Seq<u8>, Seq<u8>),
    CollectionIndex(Seq<u8>),
    BloomFilter,
    BloomSeed,
    Stats,
    Admin,
    DeltaLog(Seq<u8>, Seq<u8>),
}

impl View for DataKey {
    type V = KeyView;

    open spec fn view(&self) -> KeyView {
        match self {
            DataKey::Chunk(c, i) => KeyView::Chunk(c@, i@),
            DataKey::Meta(c, i) => KeyView::Meta(c@, i@),
            DataKey::CollectionIndex(c) => KeyView::CollectionIndex(c@),
            DataKey::BloomFilter => KeyView::BloomFilter,
            DataKey::BloomSeed => KeyView::BloomSeed,
            DataKey::Stats => KeyView::Stats,
            DataKey::Admin => KeyView::Admin,
            DataKey::DeltaLog(c, i) => KeyView::DeltaLog(c@, i@),
        }
    }
}

/// Whether two pairs of names are the same pair.
fn same_names(c1: &Vec<u8>, i1: &Vec<u8>, c2: &Vec<u8>, i2: &Vec<u8>) -> (equal: bool)
    ensures
        equal == (c1@ == c2@ && i1@ == i2@),
{
    same_bytes(c1.as_slice(), c2.as_slice()) && same_bytes(i1.as_slice(), i2.as_slice())
}

impl DataKey {
    /// Whether two keys address the same record.
    pub fn same(&self, other: &DataKey) -> (equal: bool)
        ensures
            equal == (self@ == other@),
    {
        match (self, other) {
            (DataKey::Chunk(c1, i1), DataKey::Chunk(c2, i2)) => same_names(c1, i1, c2, i2),
            (DataKey::Meta(c1, i1), DataKey::Meta(c2, i2)) => same_names(c1, i1, c2, i2),
            (DataKey::CollectionIndex(c1), DataKey::CollectionIndex(c2)) => same_bytes(
                c1.as_slice(),
                c2.as_slice(),
            ),
            (DataKey::BloomFilter, DataKey::BloomFilter) => true,
            (DataKey::BloomSeed, DataKey::BloomSeed) => true,
            (DataKey::Stats, DataKey::Stats) => true,
            (DataKey::Admin, DataKey::Admin) => true,
            (DataKey::DeltaLog(c1, i1), DataKey::DeltaLog(c2, i2)) => same_names(c1, i1, c2, i2),
            _ => false,
        }
    }
}

/// Why a call was refused. A refused call leaves the vault as it was.
#[derive(Clone, Copy, Debug, PartialEq, Eq, Structural)]
pub enum VaultError {
    NotInitialized,
    Unauthorized,
    NotFound,
    SizeMismatch,
    AlreadyInitialized,
}

} // verus!

//! The statistics aggregator: running totals, updated on every add and
//! remove, never recomputed from the chunks.

use vstd::prelude::*;
use crate::types::StorageStats;

verus! {

/// Expected false-positive rate of the Bloom filter, per mille. It is set
/// once and never recomputed from the filter.
pub const EXPECTED_FALSE_POSITIVE_RATE: u32 = 8;

/// The statistics of a vault that holds nothing.
pub open spec fn empty_stats() -> StorageStats {
    StorageStats {
        total_entries: 0,
        hot_entries: 0,
        cold_entries: 0,
        total_bytes_stored: 0,
        total_bytes_original: 0,
        compression_ratio: 0,
        bloom_false_positive_rate: EXPECTED_FALSE_POSITIVE_RATE,
    }
}

/// Whether the ratio of `stored` to `original` lies between 0 and 100.
pub open spec fn ratio_fits(stored: u64, original: u64) -> bool {
    original > 0 ==> stored * 100 / (original as int) <= 100
}

/// The compression ratio in percent: `100 - stored * 100 / original`, or the
/// prior value when nothing was stored.
pub open spec fn ratio(stored: u64, original: u64, prior: u32) -> u32 {
    if original > 0 {
        (100 - stored * 100 / (original as int)) as u32
    } else {
        prior
    }
}

/// `n - 1`, or 0 when `n` is 0.
pub open spec fn decrement(n: u32) -> u32 {
    if n > 0 {
        (n - 1) as u32
    } else {
        0
    }
}

/// `a - b`, or 0 when `b` is larger.
pub open spec fn saturating_diff(a: u64, b: u64) -> u64 {
    if a >= b {
        (a - b) as u64
    } else {
        0
    }
}

/// The statistics before the ratio is recomputed, after one chunk of the
/// given sizes was added.
pub open spec fn counted_add(stats: StorageStats, compressed: u64, original: u64, is_hot: bool)
    -> StorageStats {
    StorageStats {
        total_entries: (stats.total_entries + 1) as u32,
        hot_entries: if is_hot {
            (stats.hot_entries + 1) as u32
        } else {
            stats.hot_entries
        },
        cold_entries: if is_hot {
            stats.cold_entries
        } else {
            (stats.cold_entries + 1) as u32
        },
        total_bytes_stored: (stats.total_bytes_stored + compressed) as u64,
        total_bytes_original: (stats.total_bytes_original + original) as u64,
        ..stats
    }
}

/// The statistics before the ratio is recomputed, after one chunk of the
/// given sizes was removed. Nothing goes below zero.
pub open spec fn counted_remove(stats: StorageStats, compressed: u64, original: u64, is_hot: bool)
    -> StorageStats {
    StorageStats {
        total_entries: decrement(stats.total_entries),
        hot_entries: if is_hot {
            decrement(stats.hot_entries)
        } else {
            stats.hot_entries
        },
        cold_entries: if is_hot {
            stats.cold_entries
        } else {
            decrement(stats.cold_entries)
        },
        total_bytes_stored: saturating_diff(stats.total_bytes_stored, compressed),
        total_bytes_original: saturating_diff(stats.total_bytes_original, original),
        ..stats
    }
}

/// The statistics with the compression ratio recomputed from the byte totals.
pub open spec fn with_ratio(stats: StorageStats) -> StorageStats {
    StorageStats {
        compression_ratio: ratio(
            stats.total_bytes_stored,
            stats.total_bytes_original,
            stats.compression_ratio,
        ),
        ..stats
    }
}

/// The statistics after an add or a remove of one chunk.
pub open spec fn updated(
    stats: StorageStats,
    compressed: u64,
    original: u64,
    is_add: bool,
    is_hot: bool,
) -> StorageStats {
    if is_add {
        with_ratio(counted_add(stats, compressed, original, is_hot))
    } else {
        with_ratio(counted_remove(stats, compressed, original, is_hot))
    }
}

/// Whether an update stays within the counters' and totals' range: on an
/// add, no counter and no total passes its maximum; in either case the new
/// ratio can be computed.
pub open spec fn update_fits(
    stats: StorageStats,
    compressed: u64,
    original: u64,
    is_add: bool,
    is_hot: bool,
) -> bool {
    if is_add {
        &&& stats.total_entries < u32::MAX
        &&& is_hot ==> stats.hot_entries < u32::MAX
        &&& !is_hot ==> stats.cold_entries < u32::MAX
        &&& stats.total_bytes_stored + compressed <= u64::MAX
        &&& stats.total_bytes_original + original <= u64::MAX
        &&& ratio_fits(
            (stats.total_bytes_stored + compressed) as u64,
            (stats.total_bytes_original + original) as u64,
        )
    } else {
        ratio_fits(
            saturating_diff(stats.total_bytes_stored, compressed),
            saturating_diff(stats.total_bytes_original, original),
        )
    }
}

/// The statistics after a chunk moved from the hot zone to the cold zone.
pub open spec fn moved_to_cold(stats: StorageStats) -> StorageStats {
    StorageStats {
        hot_entries: decrement(stats.hot_entries),
        cold_entries: (stats.cold_entries + 1) as u32,
        ..stats
    }
}

/// The statistics of a vault that holds nothing.
pub fn zero_stats() -> (stats: StorageStats)
    ensures
        stats == empty_stats(),
{
    StorageStats {
        total_entries: 0,
        hot_entries: 0,
        cold_entries: 0,
        total_bytes_stored: 0,
        total_bytes_original: 0,
        compression_ratio: 0,
        bloom_false_positive_rate: EXPECTED_FALSE_POSITIVE_RATE,
    }
}

/// Whether `stats_update` may be called with these arguments.
pub fn update_is_in_range(
    stats: &StorageStats,
    compressed_bytes: u64,
    original_bytes: u64,
    is_add: bool,
    is_hot: bool,
) -> (fits: bool)
    ensures
        fits == update_fits(*stats, compressed_bytes, original_bytes, is_add, is_hot),
{
    let stored: u64;
    let original: u64;
    if is_add {
        if stats.total_entries == u32::MAX {
            return false;
        }
        if is_hot && stats.hot_entries == u32::MAX {
            return false;
        }
        if !is_hot && stats.cold_entries == u32::MAX {
            return false;
        }
        match stats.total_bytes_stored.checked_add(compressed_bytes) {
            Some(sum) => {
                stored = sum;
            },
            None => {
                return false;
            },
        }
        match stats.total_bytes_original.checked_add(original_bytes) {
            Some(sum) => {
                original = sum;
            },
            None => {
                return false;
            },
        }
    } else {
        stored = stats.total_bytes_stored.saturating_sub(compressed_bytes);
        original = stats.total_bytes_original.saturating_sub(original_bytes);
    }
    if original == 0 {
        return true;
    }
    let scaled: u128 = (stored as u128) * 100;
    scaled / (original as u128) <= 100
}

/// Updates the statistics for one chunk added (`is_add`) or removed, in the
/// hot zone (`is_hot`) or the cold one, then recomputes the compression ratio.
pub fn stats_update(
    stats: &mut StorageStats,
    compressed_bytes: u64,
    original_bytes: u64,
    is_add: bool,
    is_hot: bool,
)
    requires
        update_fits(*old(stats), compressed_bytes, original_bytes, is_add, is_hot),
    ensures
        *final(stats) == updated(*old(stats), compressed_bytes, original_bytes, is_add, is_hot),
{
    if is_add {
        stats.total_entries += 1;
        if is_hot {
            stats.hot_entries += 1;
        } else {
            stats.cold_entries += 1;
        }
        stats.total_bytes_stored += compressed_bytes;
        stats.total_bytes_original += original_bytes;
    } else {
        if stats.total_entries > 0 {
            stats.total_entries -= 1;
        }
        if is_hot && stats.hot_entries > 0 {
            stats.hot_entries -= 1;
        }
        if !is_hot && stats.cold_entries > 0 {
            stats.cold_entries -= 1;
        }
        stats.total_bytes_stored = stats.total_bytes_stored.saturating_sub(compressed_bytes);
        stats.total_bytes_original = stats.total_bytes_original.saturating_sub(original_bytes);
    }
    if stats.total_bytes_original > 0 {
        let scaled: u128 = (stats.total_bytes_stored as u128) * 100;
        let share: u128 = scaled / (stats.total_bytes_original as u128);
        stats.compression_ratio = (100 - share) as u32;
    }
}

/// Moves one chunk's count from the hot zone to the cold zone. The hot
/// count stays at zero when it is zero already.
pub fn stats_migrate(stats: &mut StorageStats)
    requires
        old(stats).cold_entries < u32::MAX,
    ensures
        *final(stats) == moved_to_cold(*old(stats)),
{
    if stats.hot_entries > 0 {
        stats.hot_entries -= 1;
    }
    stats.cold_entries += 1;
}

} // verus!

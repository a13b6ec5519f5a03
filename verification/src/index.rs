//! The collection index: per collection, a list of entry summaries in
//! insertion order, searched linearly.

use vstd::prelude::*;
use vstd::slice::slice_to_vec;
use crate::types::{entry_of, entry_views, same_bytes, ChunkMeta, IndexEntry, IndexEntryView};

verus! {

/// The position of the first entry with this id, or the list's length when
/// there is none.
pub open spec fn position_of(entries: Seq<IndexEntryView>, id: Seq<u8>) -> int
    decreases entries.len(),
{
    if entries.len() == 0 {
        0
    } else if entries.first().id == id {
        0
    } else {
        1 + position_of(entries.drop_first(), id)
    }
}

/// The list with `entry` in place of the first entry of the same id, or at
/// the end when there is none.
pub open spec fn upserted(entries: Seq<IndexEntryView>, entry: IndexEntryView) -> Seq<
    IndexEntryView,
> {
    let at = position_of(entries, entry.id);
    if at < entries.len() {
        entries.update(at, entry)
    } else {
        entries.push(entry)
    }
}

/// The list without the entries of this id; the others keep their order.
pub open spec fn removed(entries: Seq<IndexEntryView>, id: Seq<u8>) -> Seq<IndexEntryView> {
    entries.filter(|e: IndexEntryView| e.id != id)
}

/// Whether the list has an entry of this id.
pub open spec fn has_id(entries: Seq<IndexEntryView>, id: Seq<u8>) -> bool {
    position_of(entries, id) < entries.len()
}

/// Whether no two entries of the list share an id.
pub open spec fn distinct_ids(entries: Seq<IndexEntryView>) -> bool {
    forall|j: int, k: int|
        0 <= j < k < entries.len() ==> (#[trigger] entries[j]).id != (#[trigger] entries[k]).id
}

/// `position_of` is the least position that holds the id.
pub proof fn lemma_position_of(entries: Seq<IndexEntryView>, id: Seq<u8>)
    ensures
        0 <= position_of(entries, id) <= entries.len(),
        position_of(entries, id) < entries.len() ==> entries[position_of(entries, id)].id == id,
        forall|k: int| 0 <= k < position_of(entries, id) ==> (#[trigger] entries[k]).id != id,
    decreases entries.len(),
{
    if entries.len() > 0 && entries.first().id != id {
        let rest = entries.drop_first();
        lemma_position_of(rest, id);
        assert forall|k: int| 0 <= k < position_of(entries, id) implies (#[trigger] entries[k]).id
            != id by {
            if k > 0 {
                assert(entries[k] == rest[k - 1]);
            }
        }
    }
}

/// A position that holds the id, with none before it that does, is `position_of`.
pub proof fn lemma_position_is(entries: Seq<IndexEntryView>, id: Seq<u8>, at: int)
    requires
        0 <= at <= entries.len(),
        at < entries.len() ==> entries[at].id == id,
        forall|k: int| 0 <= k < at ==> (#[trigger] entries[k]).id != id,
    ensures
        position_of(entries, id) == at,
{
    lemma_position_of(entries, id);
    let found = position_of(entries, id);
    if found < at {
        assert(entries[found].id != id);
    }
}

/// A list has an id exactly when one of its entries has it.
pub proof fn lemma_has_id(entries: Seq<IndexEntryView>, id: Seq<u8>)
    ensures
        has_id(entries, id) <==> exists|k: int|
            0 <= k < entries.len() && (#[trigger] entries[k]).id == id,
{
    lemma_position_of(entries, id);
    if has_id(entries, id) {
        assert(entries[position_of(entries, id)].id == id);
    }
}

/// After an upsert the list has the entry's id and the ids it had. If its
/// ids were distinct, they still are, and each of its entries is the new
/// one or an old one of another id.
pub proof fn lemma_upserted(entries: Seq<IndexEntryView>, entry: IndexEntryView)
    ensures
        has_id(upserted(entries, entry), entry.id),
        forall|id: Seq<u8>|
            id != entry.id ==> (#[trigger] has_id(upserted(entries, entry), id) <==> has_id(
                entries,
                id,
            )),
        distinct_ids(entries) ==> forall|k: int|
            0 <= k < upserted(entries, entry).len() ==> {
                let e = #[trigger] upserted(entries, entry)[k];
                e == entry || (e.id != entry.id && k < entries.len() && e == entries[k])
            },
        distinct_ids(entries) ==> distinct_ids(upserted(entries, entry)),
{
    let after = upserted(entries, entry);
    let at = position_of(entries, entry.id);
    lemma_position_of(entries, entry.id);
    assert(after[at] == entry);
    lemma_has_id(after, entry.id);
    if distinct_ids(entries) {
        assert forall|k: int| 0 <= k < after.len() implies {
            let e = #[trigger] after[k];
            e == entry || (e.id != entry.id && k < entries.len() && e == entries[k])
        } by {
            if k != at {
                assert(after[k] == entries[k]);
                if entries[k].id == entry.id {
                    assert(entries[at].id == entries[k].id);
                }
            }
        }
        assert forall|j: int, k: int| 0 <= j < k < after.len() implies (#[trigger] after[j]).id != (
        #[trigger] after[k]).id by {
            if j != at && k != at {
                assert(after[j] == entries[j]);
                assert(after[k] == entries[k]);
            } else if j == at {
                assert(after[k] == entries[k]);
                if at < entries.len() {
                    assert(entries[at].id == entry.id);
                }
            } else {
                assert(after[j] == entries[j]);
            }
        }
    }
    assert forall|id: Seq<u8>| id != entry.id implies (#[trigger] has_id(after, id) <==> has_id(
        entries,
        id,
    )) by {
        lemma_has_id(after, id);
        lemma_has_id(entries, id);
        if has_id(entries, id) {
            let k = choose|k: int| 0 <= k < entries.len() && (#[trigger] entries[k]).id == id;
            assert(after[k].id == id);
        }
        if has_id(after, id) {
            let k = choose|k: int| 0 <= k < after.len() && (#[trigger] after[k]).id == id;
            assert(entries[k].id == id);
        }
    }
}

/// After a removal the list has the ids it had but the removed one; each of
/// its entries is an old one; and its ids are distinct if they were.
pub proof fn lemma_removed(entries: Seq<IndexEntryView>, id: Seq<u8>)
    ensures
        !has_id(removed(entries, id), id),
        forall|other: Seq<u8>|
            other != id ==> (#[trigger] has_id(removed(entries, id), other) <==> has_id(
                entries,
                other,
            )),
        forall|k: int|
            0 <= k < removed(entries, id).len() ==> exists|j: int|
                0 <= j < entries.len() && entries[j] == #[trigger] removed(entries, id)[k],
        distinct_ids(entries) ==> distinct_ids(removed(entries, id)),
    decreases entries.len(),
{
    reveal(Seq::filter);
    let keep = |e: IndexEntryView| e.id != id;
    let after = removed(entries, id);
    if entries.len() == 0 {
        lemma_has_id(after, id);
        assert forall|other: Seq<u8>| other != id implies (#[trigger] has_id(after, other)
            <==> has_id(entries, other)) by {
            lemma_has_id(after, other);
            lemma_has_id(entries, other);
        }
    } else {
        let rest = entries.drop_last();
        let last = entries.last();
        let rest_after = removed(rest, id);
        lemma_removed(rest, id);
        assert(after == if keep(last) {
            rest_after.push(last)
        } else {
            rest_after
        });
        // every entry of the result is an old entry
        assert forall|k: int| 0 <= k < after.len() implies exists|j: int|
            0 <= j < entries.len() && entries[j] == #[trigger] after[k] by {
            if k < rest_after.len() {
                assert(after[k] == rest_after[k]);
                let j = choose|j: int| 0 <= j < rest.len() && rest[j] == rest_after[k];
                assert(entries[j] == after[k]);
            } else {
                assert(entries[entries.len() - 1] == after[k]);
            }
        }
        // the ids
        lemma_has_id(after, id);
        lemma_has_id(rest_after, id);
        if has_id(after, id) {
            let k = choose|k: int| 0 <= k < after.len() && (#[trigger] after[k]).id == id;
            if k < rest_after.len() {
                assert(rest_after[k].id == id);
            }
        }
        assert forall|other: Seq<u8>| other != id implies (#[trigger] has_id(after, other)
            <==> has_id(entries, other)) by {
            lemma_has_id(after, other);
            lemma_has_id(entries, other);
            lemma_has_id(rest_after, other);
            lemma_has_id(rest, other);
            if has_id(entries, other) {
                let k = choose|k: int| 0 <= k < entries.len() && (#[trigger] entries[k]).id
                    == other;
                if k < rest.len() {
                    assert(rest[k].id == other);
                    let m = choose|m: int| 0 <= m < rest_after.len() && (
                    #[trigger] rest_after[m]).id == other;
                    assert(after[m].id == other);
                } else {
                    assert(after[after.len() - 1].id == other);
                }
            }
            if has_id(after, other) {
                let k = choose|k: int| 0 <= k < after.len() && (#[trigger] after[k]).id == other;
                if k < rest_after.len() {
                    assert(rest_after[k].id == other);
                    let m = choose|m: int| 0 <= m < rest.len() && (#[trigger] rest[m]).id
                        == other;
                    assert(entries[m].id == other);
                } else {
                    assert(entries[entries.len() - 1].id == other);
                }
            }
        }
        // distinctness
        if distinct_ids(entries) {
            assert forall|j: int, k: int| 0 <= j < k < rest.len() implies (#[trigger] rest[j]).id
                != (#[trigger] rest[k]).id by {
                assert(rest[j] == entries[j]);
                assert(rest[k] == entries[k]);
            }
            assert(distinct_ids(rest_after));
            assert forall|j: int, k: int| 0 <= j < k < after.len() implies (#[trigger] after[j]).id
                != (#[trigger] after[k]).id by {
                if k < rest_after.len() {
                    assert(after[j] == rest_after[j]);
                    assert(after[k] == rest_after[k]);
                } else {
                    assert(after[k] == last);
                    assert(after[j] == rest_after[j]);
                    let m = choose|m: int| 0 <= m < rest.len() && rest[m] == rest_after[j];
                    assert(entries[m] == rest[m]);
                    assert(entries[entries.len() - 1] == last);
                }
            }
        }
    }
}

/// Writes the summary of `meta` under `id`: in place of the first entry of
/// that id, or at the end of the list.
pub fn index_upsert(index: &mut Vec<IndexEntry>, id: &[u8], meta: &ChunkMeta)
    ensures
        entry_views(final(index)@) == upserted(entry_views(old(index)@), entry_of(id@, *meta)),
{
    let entry = IndexEntry {
        id: slice_to_vec(id),
        zone: meta.zone,
        compressed_size: meta.compressed_size,
        version: meta.version,
    };
    let ghost before = entry_views(index@);
    let mut found = false;
    let mut i: usize = 0;
    while i < index.len() && !found
        invariant
            i <= index.len(),
            index@ == old(index)@,
            entry.id@ == id@,
            before == entry_views(index@),
            found ==> i < index.len() && before[i as int].id == id@,
            forall|k: int| 0 <= k < i ==> (#[trigger] before[k]).id != id@,
        decreases index.len() - i, if found { 0int } else { 1int },
    {
        if same_bytes(index[i].id.as_slice(), id) {
            found = true;
        } else {
            i += 1;
        }
    }
    proof {
        lemma_position_is(before, id@, i as int);
    }
    if found {
        index[i] = entry;
    } else {
        index.push(entry);
    }
    proof {
        assert(entry_views(index@) =~= upserted(before, entry_of(id@, *meta)));
    }
}

/// Drops every entry of this id from the list; the others keep their order.
pub fn index_remove(index: &mut Vec<IndexEntry>, id: &[u8])
    ensures
        entry_views(final(index)@) == removed(entry_views(old(index)@), id@),
{
    let ghost before = entry_views(index@);
    let ghost keep = |e: IndexEntryView| e.id != id@;
    let mut new_index: Vec<IndexEntry> = Vec::new();
    let mut i: usize = 0;
    while i < index.len()
        invariant
            i <= index.len(),
            index@ == old(index)@,
            before == entry_views(index@),
            keep == (|e: IndexEntryView| e.id != id@),
            entry_views(new_index@) == before.take(i as int).filter(keep),
        decreases index.len() - i,
    {
        proof {
            reveal(Seq::filter);
            assert(before.take(i + 1).drop_last() =~= before.take(i as int));
            assert(before.take(i + 1).last() == before[i as int]);
        }
        if !same_bytes(index[i].id.as_slice(), id) {
            let ghost so_far = entry_views(new_index@);
            new_index.push(index[i].duplicate());
            proof {
                assert(entry_views(new_index@) =~= so_far.push(before[i as int]));
            }
        }
        i += 1;
    }
    proof {
        assert(before.take(i as int) =~= before);
    }
    *index = new_index;
}

} // verus!

//! The store under the engine: one table per namespace, each a list of
//! records found by key.

use vstd::prelude::*;
use crate::types::{DataKey, KeyView};

verus! {

/// One record of a table.
pub struct Row<V> {
    pub key: DataKey,
    pub value: V,
}

/// A table from keys to values. Of several rows with one key the first
/// counts.
pub struct Table<V> {
    rows: Vec<Row<V>>,
}

/// What a list of rows holds: for each key, the value of its first row.
spec fn rows_map<V>(rows: Seq<Row<V>>) -> Map<KeyView, V>
    decreases rows.len(),
{
    if rows.len() == 0 {
        Map::empty()
    } else {
        rows_map(rows.drop_first()).insert(rows.first().key@, rows.first().value)
    }
}

/// A key is held exactly when some row has it, and is held with the value
/// of the first such row.
proof fn lemma_first_row<V>(rows: Seq<Row<V>>, key: KeyView, at: int)
    requires
        0 <= at <= rows.len(),
        at < rows.len() ==> rows[at].key@ == key,
        forall|k: int| 0 <= k < at ==> (#[trigger] rows[k]).key@ != key,
    ensures
        rows_map(rows).contains_key(key) == (at < rows.len()),
        at < rows.len() ==> rows_map(rows)[key] == rows[at].value,
    decreases rows.len(),
{
    if rows.len() > 0 {
        let rest = rows.drop_first();
        if at > 0 {
            assert forall|k: int| 0 <= k < at - 1 implies (#[trigger] rest[k]).key@ != key by {
                assert(rest[k] == rows[k + 1]);
            }
            lemma_first_row(rest, key, at - 1);
        }
    }
}

/// Replacing the first row of a key by a row of the same key changes the
/// key's value and nothing else.
proof fn lemma_replace_row<V>(rows: Seq<Row<V>>, at: int, row: Row<V>)
    requires
        0 <= at < rows.len(),
        rows[at].key@ == row.key@,
        forall|k: int| 0 <= k < at ==> (#[trigger] rows[k]).key@ != row.key@,
    ensures
        rows_map(rows.update(at, row)) == rows_map(rows).insert(row.key@, row.value),
    decreases rows.len(),
{
    let rest = rows.drop_first();
    let after = rows.update(at, row);
    if at == 0 {
        assert(after.drop_first() =~= rest);
        assert(rows_map(after) =~= rows_map(rows).insert(row.key@, row.value));
    } else {
        assert forall|k: int| 0 <= k < at - 1 implies (#[trigger] rest[k]).key@ != row.key@ by {
            assert(rest[k] == rows[k + 1]);
        }
        lemma_replace_row(rest, at - 1, row);
        assert(after.drop_first() =~= rest.update(at - 1, row));
        assert(rows[0].key@ != row.key@);
        assert(rows_map(after) =~= rows_map(rows).insert(row.key@, row.value));
    }
}

/// Appending a row whose key no row has adds the key and changes nothing else.
proof fn lemma_append_row<V>(rows: Seq<Row<V>>, row: Row<V>)
    requires
        forall|k: int| 0 <= k < rows.len() ==> (#[trigger] rows[k]).key@ != row.key@,
    ensures
        rows_map(rows.push(row)) == rows_map(rows).insert(row.key@, row.value),
    decreases rows.len(),
{
    let after = rows.push(row);
    if rows.len() == 0 {
        assert(after.drop_first() =~= rows);
        assert(rows_map(after) =~= rows_map(rows).insert(row.key@, row.value));
    } else {
        let rest = rows.drop_first();
        assert forall|k: int| 0 <= k < rest.len() implies (#[trigger] rest[k]).key@ != row.key@ by {
            assert(rest[k] == rows[k + 1]);
        }
        lemma_append_row(rest, row);
        assert(after.drop_first() =~= rest.push(row));
        assert(rows[0].key@ != row.key@);
        assert(rows_map(after) =~= rows_map(rows).insert(row.key@, row.value));
    }
}

/// Dropping a row of a key changes nothing for the other keys.
proof fn lemma_drop_row<V>(rows: Seq<Row<V>>, at: int)
    requires
        0 <= at < rows.len(),
    ensures
        rows_map(rows.remove(at)).remove(rows[at].key@) == rows_map(rows).remove(rows[at].key@),
    decreases rows.len(),
{
    let key = rows[at].key@;
    let rest = rows.drop_first();
    let after = rows.remove(at);
    if at == 0 {
        assert(after =~= rest);
        assert(rows_map(after).remove(key) =~= rows_map(rows).remove(key));
    } else {
        lemma_drop_row(rest, at - 1);
        assert(rest[at - 1] == rows[at]);
        assert(after.drop_first() =~= rest.remove(at - 1));
        assert(after.first() == rows.first());
        assert(rows_map(after).remove(key) =~= rows_map(rest.remove(at - 1)).remove(key).insert(
            rows[0].key@,
            rows[0].value,
        ).remove(key));
        assert(rows_map(rows).remove(key) =~= rows_map(rest).remove(key).insert(
            rows[0].key@,
            rows[0].value,
        ).remove(key));
    }
}

impl<V> Table<V> {
    /// What the table holds.
    pub closed spec fn view(&self) -> Map<KeyView, V> {
        rows_map(self.rows@)
    }

    /// An empty table.
    pub fn new() -> (table: Table<V>)
        ensures
            table@ == Map::<KeyView, V>::empty(),
    {
        Table { rows: Vec::new() }
    }

    /// Finds the first row with this key.
    fn find(&self, key: &DataKey) -> (at: usize)
        ensures
            at <= self.rows.len(),
            at < self.rows.len() ==> self.rows[at as int].key@ == key@,
            forall|k: int| 0 <= k < at ==> (#[trigger] self.rows[k]).key@ != key@,
            self@.contains_key(key@) == (at < self.rows.len()),
            at < self.rows.len() ==> self@[key@] == self.rows[at as int].value,
    {
        let mut at: usize = 0;
        let mut found = false;
        while at < self.rows.len() && !found
            invariant
                at <= self.rows.len(),
                found ==> at < self.rows.len() && self.rows[at as int].key@ == key@,
                forall|k: int| 0 <= k < at ==> (#[trigger] self.rows[k]).key@ != key@,
            decreases self.rows.len() - at, if found { 0int } else { 1int },
        {
            if self.rows[at].key.same(key) {
                found = true;
            } else {
                at += 1;
            }
        }
        proof {
            lemma_first_row(self.rows@, key@, at as int);
        }
        at
    }

    /// Whether the table holds this key.
    pub fn contains(&self, key: &DataKey) -> (held: bool)
        ensures
            held == self@.contains_key(key@),
    {
        self.find(key) < self.rows.len()
    }

    /// The value held under this key, if any.
    pub fn get(&self, key: &DataKey) -> (value: Option<&V>)
        ensures
            value.is_some() == self@.contains_key(key@),
            value.is_some() ==> *value.unwrap() == self@[key@],
    {
        let at = self.find(key);
        if at < self.rows.len() {
            Some(&self.rows[at].value)
        } else {
            None
        }
    }

    /// Puts `value` under `key`, in place of what was held there.
    pub fn set(&mut self, key: DataKey, value: V)
        ensures
            final(self)@ == old(self)@.insert(key@, value),
    {
        let at = self.find(&key);
        let row = Row { key, value };
        if at < self.rows.len() {
            proof {
                lemma_replace_row(self.rows@, at as int, row);
            }
            self.rows[at] = row;
        } else {
            proof {
                lemma_append_row(self.rows@, row);
            }
            self.rows.push(row);
        }
    }

    /// Removes `key` and what was held under it.
    pub fn remove(&mut self, key: &DataKey)
        ensures
            final(self)@ == old(self)@.remove(key@),
    {
        let mut at: usize = 0;
        while at < self.rows.len()
            invariant
                at <= self.rows.len(),
                rows_map(self.rows@).remove(key@) == rows_map(old(self).rows@).remove(key@),
                forall|k: int| 0 <= k < at ==> (#[trigger] self.rows[k]).key@ != key@,
            decreases self.rows.len() - at,
        {
            if self.rows[at].key.same(key) {
                proof {
                    lemma_drop_row(self.rows@, at as int);
                }
                self.rows.remove(at);
            } else {
                at += 1;
            }
        }
        proof {
            lemma_first_row(self.rows@, key@, at as int);
            assert(rows_map(self.rows@).remove(key@) =~= rows_map(self.rows@));
        }
    }
}

} // verus!

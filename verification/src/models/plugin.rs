//! Plugins: the binary files of record definitions found in archives.

use vstd::prelude::*;
use crate::models::{first_at, lemma_first_at};
use crate::models::cell::StoreError;
use crate::text::str_eq;
use crate::time::Timestamp;

verus! {

/// A stored plugin. No two stored plugins share file and path; many may
/// share a hash, where the same plugin was uploaded more than once.
#[derive(Debug, Clone, PartialEq)]
pub struct Plugin {
    pub id: i32,
    pub name: String,
    /// The content hash of the bytes of the plugin.
    pub hash: i64,
    pub file_id: i32,
    pub mod_id: i32,
    /// The version in the header of the plugin, as the bits of the 32-bit
    /// floating-point number it is written as.
    pub version_bits: u32,
    pub size: i64,
    pub author: Option<String>,
    pub description: Option<String>,
    pub masters: Vec<String>,
    pub file_name: String,
    pub file_path: String,
    pub updated_at: Timestamp,
    pub created_at: Timestamp,
}

/// A plugin to be written.
#[derive(Debug, Clone, PartialEq)]
pub struct UnsavedPlugin {
    pub name: String,
    pub hash: i64,
    pub file_id: i32,
    pub mod_id: i32,
    pub version_bits: u32,
    pub size: i64,
    pub author: Option<String>,
    pub description: Option<String>,
    pub masters: Vec<String>,
    pub file_name: String,
    pub file_path: String,
}

impl Plugin {
    /// What identifies a plugin: its file and its path within the
    /// archive of the file.
    pub open spec fn key(self) -> (i32, Seq<char>) {
        (self.file_id, self.file_path@)
    }
}

impl UnsavedPlugin {
    /// What identifies the plugin.
    pub open spec fn key(self) -> (i32, Seq<char>) {
        (self.file_id, self.file_path@)
    }
}

/// The table of plugins: its rows in the order in which they were first
/// written, and the id that the next new row gets.
#[derive(Debug, Clone, PartialEq)]
pub struct PluginTable {
    pub rows: Vec<Plugin>,
    pub next_id: i32,
}

/// The keys of the rows, in the order of the rows.
pub open spec fn keys_of(rows: Seq<Plugin>) -> Seq<(i32, Seq<char>)> {
    Seq::new(rows.len(), |i: int| rows[i].key())
}

/// The position of the first row with the given key.
pub open spec fn position_of(rows: Seq<Plugin>, key: (i32, Seq<char>)) -> Option<int> {
    first_at(keys_of(rows), key)
}

/// No two rows share a key.
pub open spec fn keys_unique(rows: Seq<Plugin>) -> bool {
    forall|i: int, j: int|
        0 <= i < j < rows.len() ==> (#[trigger] rows[i]).key() != (#[trigger] rows[j]).key()
}

/// No two rows share an id, and every id is below the next to be handed
/// out.
pub open spec fn ids_issued(rows: Seq<Plugin>, next_id: int) -> bool {
    &&& forall|i: int| 0 <= i < rows.len() ==> (#[trigger] rows[i]).id < next_id
    &&& forall|i: int, j: int|
        0 <= i < j < rows.len() ==> (#[trigger] rows[i]).id != (#[trigger] rows[j]).id
}

/// The row that a write adds for a plugin that is not yet there.
pub open spec fn created(new: UnsavedPlugin, id: i32, now: Timestamp) -> Plugin {
    Plugin {
        id,
        name: new.name,
        hash: new.hash,
        file_id: new.file_id,
        mod_id: new.mod_id,
        version_bits: new.version_bits,
        size: new.size,
        author: new.author,
        description: new.description,
        masters: new.masters,
        file_name: new.file_name,
        file_path: new.file_path,
        updated_at: now,
        created_at: now,
    }
}

/// The row that a write leaves of a plugin that is already there: what
/// the header and the hash say of it is overwritten and the moment is
/// recorded; id, file, path, size and the moment of creation stay.
pub open spec fn overwritten(old: Plugin, new: UnsavedPlugin, now: Timestamp) -> Plugin {
    Plugin {
        name: new.name,
        hash: new.hash,
        mod_id: new.mod_id,
        version_bits: new.version_bits,
        author: new.author,
        description: new.description,
        masters: new.masters,
        file_name: new.file_name,
        updated_at: now,
        ..old
    }
}

/// The rows after a write.
pub open spec fn rows_after(rows: Seq<Plugin>, next_id: i32, new: UnsavedPlugin, now: Timestamp)
    -> Seq<Plugin> {
    match position_of(rows, new.key()) {
        None => if next_id == i32::MAX {
            rows
        } else {
            rows.push(created(new, next_id, now))
        },
        Some(i) => rows.update(i, overwritten(rows[i], new, now)),
    }
}

/// The id that the next new row gets after a write.
pub open spec fn next_id_after(rows: Seq<Plugin>, next_id: i32, new: UnsavedPlugin) -> i32 {
    if position_of(rows, new.key()) is None && next_id < i32::MAX {
        (next_id + 1) as i32
    } else {
        next_id
    }
}

/// The id of the row that a write leaves, or an error where the plugin is
/// new and no id is left.
pub open spec fn id_returned(rows: Seq<Plugin>, next_id: i32, new: UnsavedPlugin) -> Result<
    i32,
    StoreError,
> {
    match position_of(rows, new.key()) {
        None => if next_id == i32::MAX {
            Err(StoreError::IdsExhausted)
        } else {
            Ok(next_id)
        },
        Some(i) => Ok(rows[i].id),
    }
}

/// A key that is found is found at a row that has it, and at no earlier
/// row; a key that is not found is the key of no row.
pub proof fn lemma_position_of(rows: Seq<Plugin>, key: (i32, Seq<char>))
    ensures
        match position_of(rows, key) {
            Some(i) => 0 <= i < rows.len() && rows[i].key() == key && forall|j: int|
                0 <= j < i ==> (#[trigger] rows[j]).key() != key,
            None => forall|j: int| 0 <= j < rows.len() ==> (#[trigger] rows[j]).key() != key,
        },
{
    let keys = keys_of(rows);
    lemma_first_at(keys, key);
    assert forall|j: int| 0 <= j < rows.len() implies keys[j] == (#[trigger] rows[j]).key() by {}
}

impl PluginTable {
    /// A table without rows.
    pub fn new() -> (r: PluginTable)
        ensures
            r.rows@.len() == 0,
            r.next_id == 1,
            r.well_formed(),
    {
        PluginTable { rows: Vec::new(), next_id: 1 }
    }

    /// No two rows share a key or an id, and the ids are below the next.
    pub open spec fn well_formed(self) -> bool {
        keys_unique(self.rows@) && ids_issued(self.rows@, self.next_id as int)
    }

    /// The position of the row with the key of `new`.
    fn find(&self, new: &UnsavedPlugin) -> (r: Option<usize>)
        ensures
            match r {
                Some(i) => position_of(self.rows@, new.key()) == Some(i as int) && i
                    < self.rows@.len(),
                None => position_of(self.rows@, new.key()) is None,
            },
    {
        let mut i: usize = 0;
        while i < self.rows.len()
            invariant
                i <= self.rows.len(),
                forall|j: int| 0 <= j < i ==> (#[trigger] self.rows@[j]).key() != new.key(),
            decreases self.rows.len() - i,
        {
            if self.rows[i].file_id == new.file_id && str_eq(
                self.rows[i].file_path.as_str(),
                new.file_path.as_str(),
            ) {
                proof {
                    lemma_position_of(self.rows@, new.key());
                }
                return Some(i);
            }
            i += 1;
        }
        proof {
            lemma_position_of(self.rows@, new.key());
        }
        None
    }
}

/// Writes one plugin: the statement that inserts a plugin or, where a
/// plugin of its file and path is there, overwrites it. Hands back the id
/// of the row.
pub fn insert(table: &mut PluginTable, new: UnsavedPlugin, now: Timestamp) -> (r: Result<
    i32,
    StoreError,
>)
    ensures
        final(table).rows@ == rows_after(old(table).rows@, old(table).next_id, new, now),
        final(table).next_id == next_id_after(old(table).rows@, old(table).next_id, new),
        r == id_returned(old(table).rows@, old(table).next_id, new),
{
    match table.find(&new) {
        None => {
            if table.next_id == i32::MAX {
                return Err(StoreError::IdsExhausted);
            }
            let id: i32 = table.next_id;
            table.rows.push(
                Plugin {
                    id,
                    name: new.name,
                    hash: new.hash,
                    file_id: new.file_id,
                    mod_id: new.mod_id,
                    version_bits: new.version_bits,
                    size: new.size,
                    author: new.author,
                    description: new.description,
                    masters: new.masters,
                    file_name: new.file_name,
                    file_path: new.file_path,
                    updated_at: now,
                    created_at: now,
                },
            );
            table.next_id = id + 1;
            Ok(id)
        },
        Some(i) => {
            let old_row = &table.rows[i];
            let id: i32 = old_row.id;
            let row = Plugin {
                id,
                name: new.name,
                hash: new.hash,
                file_id: old_row.file_id,
                mod_id: new.mod_id,
                version_bits: new.version_bits,
                size: old_row.size,
                author: new.author,
                description: new.description,
                masters: new.masters,
                file_name: new.file_name,
                file_path: old_row.file_path.clone(),
                updated_at: now,
                created_at: old_row.created_at,
            };
            table.rows.set(i, row);
            Ok(id)
        },
    }
}

/// Writing the same plugin a second time adds no row: the table holds as
/// many rows as after the first write, the second write hands back the id
/// that the first handed back, and no row but the row of the plugin is
/// changed.
pub proof fn lemma_insert_twice(
    rows: Seq<Plugin>,
    next_id: i32,
    new: UnsavedPlugin,
    first: Timestamp,
    second: Timestamp,
)
    ensures
        ({
            let once = rows_after(rows, next_id, new, first);
            let id_once = next_id_after(rows, next_id, new);
            let twice = rows_after(once, id_once, new, second);
            &&& twice.len() == once.len()
            &&& next_id_after(once, id_once, new) == id_once
            &&& forall|i: int|
                0 <= i < once.len() ==> #[trigger] twice[i] == (Plugin {
                    updated_at: twice[i].updated_at,
                    ..once[i]
                })
            &&& forall|i: int|
                0 <= i < once.len() && (#[trigger] once[i]).key() != new.key() ==> twice[i]
                    == once[i]
            &&& id_returned(once, id_once, new) == id_returned(rows, next_id, new)
        }),
{
    lemma_position_of(rows, new.key());
    let once = rows_after(rows, next_id, new, first);
    match position_of(rows, new.key()) {
        None => {
            if next_id < i32::MAX {
                assert forall|j: int| 0 <= j < rows.len() implies (#[trigger] once[j]).key()
                    != new.key() by {
                    assert(once[j] == rows[j]);
                }
                lemma_position_of(once, new.key());
                assert(once[rows.len() as int].key() == new.key());
            }
        },
        Some(i) => {
            assert forall|j: int| 0 <= j < i implies (#[trigger] once[j]).key() != new.key() by {
                assert(once[j] == rows[j]);
            }
            lemma_position_of(once, new.key());
            assert(once[i].key() == new.key());
        },
    }
}

/// A write keeps a table well formed: a plugin is stored once, however
/// often it is written.
pub proof fn lemma_insert_keeps_well_formed(
    rows: Seq<Plugin>,
    next_id: i32,
    new: UnsavedPlugin,
    now: Timestamp,
)
    requires
        keys_unique(rows),
        ids_issued(rows, next_id as int),
    ensures
        keys_unique(rows_after(rows, next_id, new, now)),
        ids_issued(rows_after(rows, next_id, new, now), next_id_after(rows, next_id, new) as int),
{
    lemma_position_of(rows, new.key());
    let after = rows_after(rows, next_id, new, now);
    assert forall|i: int, j: int| 0 <= i < j < after.len() implies (#[trigger] after[i]).key() != (
    #[trigger] after[j]).key() by {
        if i < rows.len() {
            assert(after[i].key() == rows[i].key());
        }
        if j < rows.len() {
            assert(after[j].key() == rows[j].key());
        }
    }
    assert forall|i: int, j: int| 0 <= i < j < after.len() implies (#[trigger] after[i]).id != (
    #[trigger] after[j]).id by {
        if i < rows.len() {
            assert(after[i].id == rows[i].id);
        }
        if j < rows.len() {
            assert(after[j].id == rows[j].id);
        }
    }
    assert forall|i: int| 0 <= i < after.len() implies (#[trigger] after[i]).id < next_id_after(
        rows,
        next_id,
        new,
    ) by {
        if i < rows.len() {
            assert(after[i].id == rows[i].id);
        }
    }
}

/// Whether `later` is what writes at `now` leave of the row `then`: id,
/// file, path, size and the moment of creation stay, and the moment of the
/// last write is as it was or `now`.
pub open spec fn is_later(then: Plugin, later: Plugin, now: Timestamp) -> bool {
    &&& later == (Plugin {
        name: later.name,
        hash: later.hash,
        mod_id: later.mod_id,
        version_bits: later.version_bits,
        author: later.author,
        description: later.description,
        masters: later.masters,
        file_name: later.file_name,
        updated_at: later.updated_at,
        ..then
    })
    &&& later.updated_at == then.updated_at || later.updated_at == now
}

/// A write loses no row, changes at most the row of the plugin it writes,
/// and leaves of every row what a write may leave of it.
pub proof fn lemma_insert_keeps_rows(
    rows: Seq<Plugin>,
    next_id: i32,
    new: UnsavedPlugin,
    now: Timestamp,
)
    ensures
        rows_after(rows, next_id, new, now).len() >= rows.len(),
        forall|i: int|
            0 <= i < rows.len() ==> is_later(
                #[trigger] rows[i],
                rows_after(rows, next_id, new, now)[i],
                now,
            ),
        forall|i: int|
            0 <= i < rows.len() && (#[trigger] rows[i]).key() != new.key() ==> rows_after(
                rows,
                next_id,
                new,
                now,
            )[i] == rows[i],
{
    lemma_position_of(rows, new.key());
}

/// Writing a plugin a second time adds no row and uses no id, and hands
/// back the id that the first write handed back. The rows of the two
/// writes need only agree in their keys.
pub proof fn lemma_insert_again(
    rows: Seq<Plugin>,
    next_id: i32,
    once: UnsavedPlugin,
    again: UnsavedPlugin,
    first: Timestamp,
    second: Timestamp,
)
    requires
        once.key() == again.key(),
        id_returned(rows, next_id, once) is Ok,
    ensures
        ({
            let then = rows_after(rows, next_id, once, first);
            let id_then = next_id_after(rows, next_id, once);
            &&& rows_after(then, id_then, again, second).len() == then.len()
            &&& next_id_after(then, id_then, again) == id_then
            &&& id_returned(then, id_then, again) == id_returned(rows, next_id, once)
        }),
{
    lemma_position_of(rows, once.key());
    let then = rows_after(rows, next_id, once, first);
    match position_of(rows, once.key()) {
        None => {
            assert forall|j: int| 0 <= j < rows.len() implies (#[trigger] then[j]).key()
                != once.key() by {
                assert(then[j] == rows[j]);
            }
            lemma_position_of(then, once.key());
            assert(then[rows.len() as int].key() == once.key());
        },
        Some(i) => {
            assert forall|j: int| 0 <= j < i implies (#[trigger] then[j]).key() != once.key() by {
                assert(then[j] == rows[j]);
            }
            lemma_position_of(then, once.key());
            assert(then[i].key() == once.key());
        },
    }
}

/// Whether two rows agree in everything but the moment of the last write,
/// the texts in them taken by their characters.
pub open spec fn same_but_for_update(a: Plugin, b: Plugin) -> bool {
    &&& a.id == b.id
    &&& a.name@ == b.name@
    &&& a.hash == b.hash
    &&& a.file_id == b.file_id
    &&& a.mod_id == b.mod_id
    &&& a.version_bits == b.version_bits
    &&& a.size == b.size
    &&& a.author == b.author
    &&& a.description == b.description
    &&& a.masters@ == b.masters@
    &&& a.file_name@ == b.file_name@
    &&& a.file_path@ == b.file_path@
    &&& a.created_at == b.created_at
}

} // verus!

//! Which plugin edits which cell.

use vstd::prelude::*;
use crate::models::{first_at, lemma_first_at, lemma_last_at};
use crate::models::cell::{Cell, StoreError};
use crate::time::Timestamp;

verus! {

/// A stored link between a plugin and a cell it edits, with the file and
/// the mod of the plugin beside it. No two stored links share plugin and
/// cell.
#[derive(Debug, Clone, PartialEq)]
pub struct PluginCell {
    pub id: i32,
    pub plugin_id: i32,
    pub cell_id: i32,
    pub file_id: i32,
    pub mod_id: i32,
    pub editor_id: Option<String>,
    pub updated_at: Timestamp,
    pub created_at: Timestamp,
}

/// A link to be written.
#[derive(Debug, Clone, PartialEq)]
pub struct UnsavedPluginCell {
    pub plugin_id: i32,
    pub cell_id: i32,
    pub file_id: i32,
    pub mod_id: i32,
    pub editor_id: Option<String>,
}

impl PluginCell {
    /// What identifies a link: the plugin and the cell.
    pub open spec fn key(self) -> (i32, i32) {
        (self.plugin_id, self.cell_id)
    }

    /// A copy of the row.
    pub fn duplicate(&self) -> (r: PluginCell)
        ensures
            r == *self,
    {
        PluginCell {
            id: self.id,
            plugin_id: self.plugin_id,
            cell_id: self.cell_id,
            file_id: self.file_id,
            mod_id: self.mod_id,
            editor_id: self.editor_id.clone(),
            updated_at: self.updated_at,
            created_at: self.created_at,
        }
    }
}

/// The table of links between plugins and cells: its rows in the order in
/// which they were first written, and the id that the next new row gets.
#[derive(Debug, Clone, PartialEq)]
pub struct PluginCellTable {
    pub rows: Vec<PluginCell>,
    pub next_id: i32,
}

/// The keys of the rows, in the order of the rows.
pub open spec fn keys_of(rows: Seq<PluginCell>) -> Seq<(i32, i32)> {
    Seq::new(rows.len(), |i: int| rows[i].key())
}

/// The position of the first row with the given key.
pub open spec fn position_of(rows: Seq<PluginCell>, key: (i32, i32)) -> Option<int> {
    first_at(keys_of(rows), key)
}

/// No two rows share a key.
pub open spec fn keys_unique(rows: Seq<PluginCell>) -> bool {
    forall|i: int, j: int|
        0 <= i < j < rows.len() ==> (#[trigger] rows[i]).key() != (#[trigger] rows[j]).key()
}

/// No two rows share an id, and every id is below the next to be handed
/// out.
pub open spec fn ids_issued(rows: Seq<PluginCell>, next_id: int) -> bool {
    &&& forall|i: int| 0 <= i < rows.len() ==> (#[trigger] rows[i]).id < next_id
    &&& forall|i: int, j: int|
        0 <= i < j < rows.len() ==> (#[trigger] rows[i]).id != (#[trigger] rows[j]).id
}

/// Whether a cell with the given id is stored.
pub open spec fn cell_exists(cells: Seq<Cell>, id: i32) -> bool {
    exists|i: int| 0 <= i < cells.len() && (#[trigger] cells[i]).id == id
}

/// Every link points at a stored cell.
pub open spec fn references_hold(rows: Seq<PluginCell>, cells: Seq<Cell>) -> bool {
    forall|i: int| 0 <= i < rows.len() ==> cell_exists(cells, (#[trigger] rows[i]).cell_id)
}

/// The row that a write adds for a link that is not yet there.
pub open spec fn created(new: UnsavedPluginCell, id: i32, now: Timestamp) -> PluginCell {
    PluginCell {
        id,
        plugin_id: new.plugin_id,
        cell_id: new.cell_id,
        file_id: new.file_id,
        mod_id: new.mod_id,
        editor_id: new.editor_id,
        updated_at: now,
        created_at: now,
    }
}

/// The row that a write leaves of a link that is already there: the
/// editor id is overwritten and the moment is recorded.
pub open spec fn overwritten(old: PluginCell, new: UnsavedPluginCell, now: Timestamp)
    -> PluginCell {
    PluginCell { editor_id: new.editor_id, updated_at: now, ..old }
}

/// The rows after a write. A link to a cell that is not stored is
/// refused, and so is a new link where no id is left; both leave the table
/// as it is.
pub open spec fn rows_after(
    rows: Seq<PluginCell>,
    next_id: i32,
    cells: Seq<Cell>,
    new: UnsavedPluginCell,
    now: Timestamp,
) -> Seq<PluginCell> {
    if !cell_exists(cells, new.cell_id) {
        rows
    } else {
        match position_of(rows, new.key()) {
            None => if next_id == i32::MAX {
                rows
            } else {
                rows.push(created(new, next_id, now))
            },
            Some(i) => rows.update(i, overwritten(rows[i], new, now)),
        }
    }
}

/// The id that the next new row gets after a write.
pub open spec fn next_id_after(
    rows: Seq<PluginCell>,
    next_id: i32,
    cells: Seq<Cell>,
    new: UnsavedPluginCell,
) -> i32 {
    if cell_exists(cells, new.cell_id) && position_of(rows, new.key()) is None && next_id
        < i32::MAX {
        (next_id + 1) as i32
    } else {
        next_id
    }
}

/// The row that a write hands back, or why it was refused.
pub open spec fn row_returned(
    rows: Seq<PluginCell>,
    next_id: i32,
    cells: Seq<Cell>,
    new: UnsavedPluginCell,
    now: Timestamp,
) -> Result<PluginCell, StoreError> {
    if !cell_exists(cells, new.cell_id) {
        Err(StoreError::MissingReference)
    } else {
        match position_of(rows, new.key()) {
            None => if next_id == i32::MAX {
                Err(StoreError::IdsExhausted)
            } else {
                Ok(created(new, next_id, now))
            },
            Some(i) => Ok(overwritten(rows[i], new, now)),
        }
    }
}

impl UnsavedPluginCell {
    /// What identifies the link.
    pub open spec fn key(self) -> (i32, i32) {
        (self.plugin_id, self.cell_id)
    }
}

/// A key that is found is found at a row that has it, and at no earlier
/// row; a key that is not found is the key of no row.
pub proof fn lemma_position_of(rows: Seq<PluginCell>, key: (i32, i32))
    ensures
        match position_of(rows, key) {
            Some(i) => 0 <= i < rows.len() && rows[i].key() == key && forall|j: int|
                0 <= j < i ==> (#[trigger] rows[j]).key() != key,
            None => forall|j: int| 0 <= j < rows.len() ==> (#[trigger] rows[j]).key() != key,
        },
{
    let keys = keys_of(rows);
    lemma_first_at(keys, key);
    assert forall|j: int| 0 <= j < rows.len() implies keys[j] == (#[trigger] rows[j]).key() by {}
}

impl PluginCellTable {
    /// A table without rows.
    pub fn new() -> (r: PluginCellTable)
        ensures
            r.rows@.len() == 0,
            r.next_id == 1,
            r.well_formed(),
    {
        PluginCellTable { rows: Vec::new(), next_id: 1 }
    }

    /// No two rows share a key or an id, and the ids are below the next.
    pub open spec fn well_formed(self) -> bool {
        keys_unique(self.rows@) && ids_issued(self.rows@, self.next_id as int)
    }

    /// The position of the row with the given key.
    fn find(&self, plugin_id: i32, cell_id: i32) -> (r: Option<usize>)
        ensures
            match r {
                Some(i) => position_of(self.rows@, (plugin_id, cell_id)) == Some(i as int) && i
                    < self.rows@.len(),
                None => position_of(self.rows@, (plugin_id, cell_id)) is None,
            },
    {
        let mut i: usize = 0;
        proof {
            lemma_position_of(self.rows@, (plugin_id, cell_id));
        }
        while i < self.rows.len()
            invariant
                i <= self.rows.len(),
                forall|j: int| 0 <= j < i ==> (#[trigger] self.rows@[j]).key() != (plugin_id, cell_id),
            decreases self.rows.len() - i,
        {
            if self.rows[i].plugin_id == plugin_id && self.rows[i].cell_id == cell_id {
                proof {
                    lemma_position_of(self.rows@, (plugin_id, cell_id));
                }
                return Some(i);
            }
            i += 1;
        }
        proof {
            lemma_position_of(self.rows@, (plugin_id, cell_id));
        }
        None
    }
}

/// Whether a cell with the given id is stored.
pub fn has_cell(cells: &Vec<Cell>, id: i32) -> (r: bool)
    ensures
        r == cell_exists(cells@, id),
{
    let mut i: usize = 0;
    while i < cells.len()
        invariant
            i <= cells.len(),
            forall|j: int| 0 <= j < i ==> (#[trigger] cells@[j]).id != id,
        decreases cells.len() - i,
    {
        if cells[i].id == id {
            return true;
        }
        i += 1;
    }
    false
}

/// Writes one link: the statement that inserts a link or, where a link
/// of its plugin and cell is there, overwrites its editor id.
///
/// Hands back the row as it stands afterwards. A link to a cell that is
/// not among `cells` is refused.
pub fn insert(table: &mut PluginCellTable, cells: &Vec<Cell>, new: &UnsavedPluginCell, now: Timestamp)
    -> (r: Result<PluginCell, StoreError>)
    ensures
        final(table).rows@ == rows_after(old(table).rows@, old(table).next_id, cells@, *new, now),
        final(table).next_id == next_id_after(old(table).rows@, old(table).next_id, cells@, *new),
        r == row_returned(old(table).rows@, old(table).next_id, cells@, *new, now),
{
    if !has_cell(cells, new.cell_id) {
        return Err(StoreError::MissingReference);
    }
    match table.find(new.plugin_id, new.cell_id) {
        None => {
            if table.next_id == i32::MAX {
                return Err(StoreError::IdsExhausted);
            }
            let row = PluginCell {
                id: table.next_id,
                plugin_id: new.plugin_id,
                cell_id: new.cell_id,
                file_id: new.file_id,
                mod_id: new.mod_id,
                editor_id: new.editor_id.clone(),
                updated_at: now,
                created_at: now,
            };
            let copy = row.duplicate();
            table.rows.push(row);
            table.next_id = table.next_id + 1;
            Ok(copy)
        },
        Some(i) => {
            let old_row = &table.rows[i];
            let row = PluginCell {
                id: old_row.id,
                plugin_id: old_row.plugin_id,
                cell_id: old_row.cell_id,
                file_id: old_row.file_id,
                mod_id: old_row.mod_id,
                editor_id: new.editor_id.clone(),
                updated_at: now,
                created_at: old_row.created_at,
            };
            let copy = row.duplicate();
            table.rows.set(i, row);
            Ok(copy)
        },
    }
}

/// Writes links one after the other, in the order given, and hands back
/// their rows in that order. The run ends at the first link that is
/// refused; what was written before it stays written.
pub fn batched_insert(
    table: &mut PluginCellTable,
    cells: &Vec<Cell>,
    news: &Vec<UnsavedPluginCell>,
    now: Timestamp,
) -> (r: Result<Vec<PluginCell>, StoreError>)
    ensures
        match r {
            Ok(written) => {
                &&& written@.len() == news@.len()
                &&& (final(table).rows@, final(table).next_id) == table_after(
                    old(table).rows@,
                    old(table).next_id,
                    cells@,
                    news@,
                    now,
                )
                &&& forall|k: int|
                    0 <= k < news@.len() ==> returns_row(
                        old(table).rows@,
                        old(table).next_id,
                        cells@,
                        news@,
                        now,
                        k,
                        #[trigger] written@[k],
                    )
            },
            Err(e) => exists|k: int|
                {
                    &&& 0 <= k < news@.len()
                    &&& (final(table).rows@, final(table).next_id) == #[trigger] table_after(
                        old(table).rows@,
                        old(table).next_id,
                        cells@,
                        news@.subrange(0, k),
                        now,
                    )
                    &&& fails_at(old(table).rows@, old(table).next_id, cells@, news@, now, k, e)
                },
        },
{
    let mut written: Vec<PluginCell> = Vec::new();
    let mut i: usize = 0;
    while i < news.len()
        invariant
            i <= news.len(),
            written@.len() == i,
            (table.rows@, table.next_id) == table_after(
                old(table).rows@,
                old(table).next_id,
                cells@,
                news@.subrange(0, i as int),
                now,
            ),
            forall|k: int|
                0 <= k < i ==> returns_row(
                    old(table).rows@,
                    old(table).next_id,
                    cells@,
                    news@,
                    now,
                    k,
                    #[trigger] written@[k],
                ),
        decreases news.len() - i,
    {
        let ghost longer = news@.subrange(0, i + 1);
        assert(longer.drop_last() =~= news@.subrange(0, i as int));
        assert(longer.last() == news@[i as int]);
        match insert(table, cells, &news[i], now) {
            Ok(row) => {
                written.push(row);
            },
            Err(e) => {
                return Err(e);
            },
        }
        i += 1;
    }
    assert(news@.subrange(0, news.len() as int) =~= news@);
    Ok(written)
}

/// Whether write number `k` of a run is refused, for the given reason.
pub open spec fn fails_at(
    rows: Seq<PluginCell>,
    next_id: i32,
    cells: Seq<Cell>,
    news: Seq<UnsavedPluginCell>,
    now: Timestamp,
    k: int,
    e: StoreError,
) -> bool {
    let before = table_after(rows, next_id, cells, news.subrange(0, k), now);
    row_returned(before.0, before.1, cells, news[k], now) == Err::<PluginCell, StoreError>(e)
}

/// Whether write number `k` of a run hands back exactly this row.
pub open spec fn returns_row(
    rows: Seq<PluginCell>,
    next_id: i32,
    cells: Seq<Cell>,
    news: Seq<UnsavedPluginCell>,
    now: Timestamp,
    k: int,
    row: PluginCell,
) -> bool {
    let before = table_after(rows, next_id, cells, news.subrange(0, k), now);
    row_returned(before.0, before.1, cells, news[k], now) == Ok::<PluginCell, StoreError>(row)
}

/// The first row with a key is where the key is found.
pub proof fn lemma_position_is(rows: Seq<PluginCell>, key: (i32, i32), i: int)
    requires
        0 <= i < rows.len(),
        rows[i].key() == key,
        forall|j: int| 0 <= j < i ==> (#[trigger] rows[j]).key() != key,
    ensures
        position_of(rows, key) == Some(i),
{
    lemma_position_of(rows, key);
}

/// Writing the same link a second time adds no row: the table holds as
/// many rows as after the first write, the second write hands back the row
/// of the first under the same id, with the moment of the second write on
/// it, and every other row is as it was.
pub proof fn lemma_insert_twice(
    rows: Seq<PluginCell>,
    next_id: i32,
    cells: Seq<Cell>,
    new: UnsavedPluginCell,
    first: Timestamp,
    second: Timestamp,
)
    ensures
        ({
            let once = rows_after(rows, next_id, cells, new, first);
            let id_once = next_id_after(rows, next_id, cells, new);
            let twice = rows_after(once, id_once, cells, new, second);
            let handed_once = row_returned(rows, next_id, cells, new, first);
            let handed_twice = row_returned(once, id_once, cells, new, second);
            &&& twice.len() == once.len()
            &&& next_id_after(once, id_once, cells, new) == id_once
            &&& forall|i: int|
                0 <= i < once.len() ==> #[trigger] twice[i] == (PluginCell {
                    updated_at: twice[i].updated_at,
                    ..once[i]
                })
            &&& forall|i: int|
                0 <= i < once.len() && (#[trigger] once[i]).key() != new.key() ==> twice[i]
                    == once[i]
            &&& handed_once matches Ok(a) ==> handed_twice == Ok::<PluginCell, StoreError>(
                PluginCell { updated_at: second, ..a },
            )
            &&& handed_once is Err ==> handed_twice == handed_once && twice == rows
        }),
{
    lemma_position_of(rows, new.key());
    let once = rows_after(rows, next_id, cells, new, first);
    if cell_exists(cells, new.cell_id) {
        match position_of(rows, new.key()) {
            None => {
                if next_id < i32::MAX {
                    assert forall|j: int| 0 <= j < rows.len() implies (#[trigger] once[j]).key()
                        != new.key() by {
                        assert(once[j] == rows[j]);
                    }
                    lemma_position_is(once, new.key(), rows.len() as int);
                }
            },
            Some(i) => {
                assert forall|j: int| 0 <= j < i implies (#[trigger] once[j]).key()
                    != new.key() by {
                    assert(once[j] == rows[j]);
                }
                lemma_position_is(once, new.key(), i);
            },
        }
    }
}

/// The table after a run of writes, one after the other in the order
/// given.
pub open spec fn table_after(
    rows: Seq<PluginCell>,
    next_id: i32,
    cells: Seq<Cell>,
    news: Seq<UnsavedPluginCell>,
    now: Timestamp,
) -> (Seq<PluginCell>, i32)
    decreases news.len(),
{
    if news.len() == 0 {
        (rows, next_id)
    } else {
        let before = table_after(rows, next_id, cells, news.drop_last(), now);
        (
            rows_after(before.0, before.1, cells, news.last(), now),
            next_id_after(before.0, before.1, cells, news.last()),
        )
    }
}

/// A write keeps the table well formed and every link pointing at a
/// stored cell: a link is stored once, however often it is written, and
/// never dangles.
pub proof fn lemma_insert_keeps_well_formed(
    rows: Seq<PluginCell>,
    next_id: i32,
    cells: Seq<Cell>,
    new: UnsavedPluginCell,
    now: Timestamp,
)
    requires
        keys_unique(rows),
        ids_issued(rows, next_id as int),
        references_hold(rows, cells),
    ensures
        keys_unique(rows_after(rows, next_id, cells, new, now)),
        ids_issued(
            rows_after(rows, next_id, cells, new, now),
            next_id_after(rows, next_id, cells, new) as int,
        ),
        references_hold(rows_after(rows, next_id, cells, new, now), cells),
{
    lemma_position_of(rows, new.key());
    let after = rows_after(rows, next_id, cells, new, now);
    assert forall|i: int, j: int| 0 <= i < j < after.len() implies (#[trigger] after[i]).key() != (
    #[trigger] after[j]).key() by {
        if i < rows.len() {
            assert(after[i].key() == rows[i].key());
        }
        if j < rows.len() {
            assert(after[j].key() == rows[j].key());
        }
    }
    assert forall|i: int, j: int| 0 <= i < j < after.len() implies (#[trigger] after[i]).id != (
    #[trigger] after[j]).id by {
        if i < rows.len() {
            assert(after[i].id == rows[i].id);
        }
        if j < rows.len() {
            assert(after[j].id == rows[j].id);
        }
    }
    assert forall|i: int| 0 <= i < after.len() implies (#[trigger] after[i]).id < next_id_after(
        rows,
        next_id,
        cells,
        new,
    ) by {
        if i < rows.len() {
            assert(after[i].id == rows[i].id);
        }
    }
    assert forall|i: int| 0 <= i < after.len() implies cell_exists(
        cells,
        (#[trigger] after[i]).cell_id,
    ) by {
        if i < rows.len() {
            assert(after[i].cell_id == rows[i].cell_id);
        }
    }
}

/// Writing cells breaks no link: a link that points at a stored cell
/// still does after any write to the table of cells.
pub proof fn lemma_cell_insert_keeps_references(
    rows: Seq<PluginCell>,
    cells: Seq<Cell>,
    next_cell_id: i32,
    new: crate::models::cell::UnsavedCell,
    mode: crate::models::cell::CellMode,
    now: Timestamp,
)
    requires
        references_hold(rows, cells),
    ensures
        references_hold(
            rows,
            crate::models::cell::rows_after(cells, next_cell_id, new, mode, now),
        ),
{
    let after = crate::models::cell::rows_after(cells, next_cell_id, new, mode, now);
    crate::models::cell::lemma_insert_touches_one_row(cells, next_cell_id, new, mode, now);
    assert forall|i: int| 0 <= i < rows.len() implies cell_exists(
        after,
        (#[trigger] rows[i]).cell_id,
    ) by {
        assert(cell_exists(cells, rows[i].cell_id));
        let k = choose|k: int| 0 <= k < cells.len() && (#[trigger] cells[k]).id == rows[i].cell_id;
        assert(after[k].id == cells[k].id);
    }
}

/// A run of writes keeps the table well formed and every link pointing at
/// a stored row, and loses no link.
pub proof fn lemma_batch_keeps_well_formed(
    rows: Seq<PluginCell>,
    next_id: i32,
    cells: Seq<Cell>,
    news: Seq<UnsavedPluginCell>,
    now: Timestamp,
)
    requires
        keys_unique(rows),
        ids_issued(rows, next_id as int),
        references_hold(rows, cells),
    ensures
        keys_unique(table_after(rows, next_id, cells, news, now).0),
        ids_issued(
            table_after(rows, next_id, cells, news, now).0,
            table_after(rows, next_id, cells, news, now).1 as int,
        ),
        references_hold(table_after(rows, next_id, cells, news, now).0, cells),
        table_after(rows, next_id, cells, news, now).0.len() >= rows.len(),
    decreases news.len(),
{
    if news.len() > 0 {
        lemma_batch_keeps_well_formed(rows, next_id, cells, news.drop_last(), now);
        let before = table_after(rows, next_id, cells, news.drop_last(), now);
        lemma_insert_keeps_well_formed(before.0, before.1, cells, news.last(), now);
        lemma_position_of(before.0, news.last().key());
    }
}

/// Links that point at stored rows still do once rows have been added and
/// no row has changed its id.
pub proof fn lemma_references_outlast_growth(
    rows: Seq<PluginCell>,
    before: Seq<Cell>,
    after: Seq<Cell>,
)
    requires
        references_hold(rows, before),
        after.len() >= before.len(),
        forall|i: int| 0 <= i < before.len() ==> (#[trigger] after[i]).id == before[i].id,
    ensures
        references_hold(rows, after),
{
    assert forall|i: int| 0 <= i < rows.len() implies cell_exists(
        after,
        (#[trigger] rows[i]).cell_id,
    ) by {
        assert(cell_exists(before, rows[i].cell_id));
        let k = choose|k: int| 0 <= k < before.len() && (#[trigger] before[k]).id == rows[i].cell_id;
        assert(after[k].id == before[k].id);
    }
}

/// The next id never falls, and rises by no more than the rows written.
pub proof fn lemma_next_id_bounds(
    rows: Seq<PluginCell>,
    next_id: i32,
    cells: Seq<Cell>,
    news: Seq<UnsavedPluginCell>,
    now: Timestamp,
)
    ensures
        next_id <= table_after(rows, next_id, cells, news, now).1 <= next_id + news.len(),
    decreases news.len(),
{
    if news.len() > 0 {
        lemma_next_id_bounds(rows, next_id, cells, news.drop_last(), now);
    }
}

/// A run of writes for which ids are left, and whose links all point at
/// stored rows, is refused at no write.
pub proof fn lemma_batch_has_room(
    rows: Seq<PluginCell>,
    next_id: i32,
    cells: Seq<Cell>,
    news: Seq<UnsavedPluginCell>,
    now: Timestamp,
    k: int,
    e: StoreError,
)
    requires
        0 <= k < news.len(),
        next_id + news.len() <= i32::MAX,
        forall|i: int| 0 <= i < news.len() ==> cell_exists(cells, (#[trigger] news[i]).cell_id),
    ensures
        !fails_at(rows, next_id, cells, news, now, k, e),
{
    lemma_next_id_bounds(rows, next_id, cells, news.subrange(0, k), now);
}

/// Whether a link with the given key is stored.
pub open spec fn key_stored(rows: Seq<PluginCell>, key: (i32, i32)) -> bool {
    exists|i: int| 0 <= i < rows.len() && (#[trigger] rows[i]).key() == key
}

/// Whether `later` is what writes at `now` leave of the row `then`:
/// nothing of a link changes but its editor id and the moment of its last
/// write, which is as it was or `now`.
pub open spec fn is_later(then: PluginCell, later: PluginCell, now: Timestamp) -> bool {
    &&& later == (PluginCell { editor_id: later.editor_id, updated_at: later.updated_at, ..then })
    &&& later.updated_at == then.updated_at || later.updated_at == now
}

/// A longer run of writes keeps what a shorter run of the same writes has
/// stored: no row is lost, and every row is what later writes leave of it.
pub proof fn lemma_batch_grows(
    rows: Seq<PluginCell>,
    next_id: i32,
    cells: Seq<Cell>,
    news: Seq<UnsavedPluginCell>,
    now: Timestamp,
    k: int,
)
    requires
        0 <= k <= news.len(),
    ensures
        ({
            let shorter = table_after(rows, next_id, cells, news.subrange(0, k), now).0;
            let longer = table_after(rows, next_id, cells, news, now).0;
            &&& longer.len() >= shorter.len()
            &&& forall|i: int|
                0 <= i < shorter.len() ==> is_later(shorter[i], #[trigger] longer[i], now)
        }),
    decreases news.len() - k,
{
    if k == news.len() {
        assert(news.subrange(0, k) =~= news);
    } else {
        let front = news.drop_last();
        assert(front.subrange(0, k) =~= news.subrange(0, k));
        lemma_batch_grows(rows, next_id, cells, front, now, k);
        let before = table_after(rows, next_id, cells, front, now);
        lemma_position_of(before.0, news.last().key());
        let shorter = table_after(rows, next_id, cells, news.subrange(0, k), now).0;
        let longer = table_after(rows, next_id, cells, news, now).0;
        assert(longer.len() >= before.0.len());
        assert forall|i: int| 0 <= i < shorter.len() implies is_later(shorter[i], #[trigger] longer[i], now) by {
            assert(is_later(shorter[i], before.0[i], now));
            assert(is_later(before.0[i], longer[i], now));
        }
    }
}

/// Every link that a run of writes has written is stored at the end of
/// the run.
pub proof fn lemma_batch_rows_stored(
    rows: Seq<PluginCell>,
    next_id: i32,
    cells: Seq<Cell>,
    news: Seq<UnsavedPluginCell>,
    now: Timestamp,
    k: int,
)
    requires
        0 <= k < news.len(),
    ensures
        ({
            let before = table_after(rows, next_id, cells, news.subrange(0, k), now);
            row_returned(before.0, before.1, cells, news[k], now) is Ok ==> key_stored(
                table_after(rows, next_id, cells, news, now).0,
                news[k].key(),
            )
        }),
{
    let before = table_after(rows, next_id, cells, news.subrange(0, k), now);
    lemma_position_of(before.0, news[k].key());
    let upto = news.subrange(0, k + 1);
    assert(upto.drop_last() =~= news.subrange(0, k));
    assert(upto.last() == news[k]);
    let then = table_after(rows, next_id, cells, upto, now).0;
    assert(then == rows_after(before.0, before.1, cells, news[k], now));
    lemma_batch_grows(rows, next_id, cells, news, now, k + 1);
    let end = table_after(rows, next_id, cells, news, now).0;
    if row_returned(before.0, before.1, cells, news[k], now) is Ok {
        let i = match position_of(before.0, news[k].key()) {
            Some(i) => i,
            None => before.0.len() as int,
        };
        assert(then[i].key() == news[k].key());
        assert(end[i].key() == news[k].key());
    }
}

/// Whether write number `k` of a run succeeds.
pub open spec fn written_at(
    rows: Seq<PluginCell>,
    next_id: i32,
    cells: Seq<Cell>,
    news: Seq<UnsavedPluginCell>,
    now: Timestamp,
    k: int,
) -> bool {
    let before = table_after(rows, next_id, cells, news.subrange(0, k), now);
    row_returned(before.0, before.1, cells, news[k], now) is Ok
}

/// Whether every write of a run succeeds.
pub open spec fn all_written(
    rows: Seq<PluginCell>,
    next_id: i32,
    cells: Seq<Cell>,
    news: Seq<UnsavedPluginCell>,
    now: Timestamp,
) -> bool {
    forall|k: int| 0 <= k < news.len() ==> #[trigger] written_at(rows, next_id, cells, news, now, k)
}

/// A run of writes of links that are all stored, to cells that are
/// stored, adds no row and uses no id, and every write succeeds.
pub proof fn lemma_batch_of_stored(
    rows: Seq<PluginCell>,
    next_id: i32,
    cells: Seq<Cell>,
    news: Seq<UnsavedPluginCell>,
    now: Timestamp,
)
    requires
        forall|k: int|
            0 <= k < news.len() ==> key_stored(rows, (#[trigger] news[k]).key()) && cell_exists(
                cells,
                news[k].cell_id,
            ),
    ensures
        table_after(rows, next_id, cells, news, now).0.len() == rows.len(),
        table_after(rows, next_id, cells, news, now).1 == next_id,
        all_written(rows, next_id, cells, news, now),
    decreases news.len(),
{
    if news.len() > 0 {
        let front = news.drop_last();
        assert forall|k: int| 0 <= k < front.len() implies key_stored(
            rows,
            (#[trigger] front[k]).key(),
        ) && cell_exists(cells, front[k].cell_id) by {
            assert(front[k] == news[k]);
        }
        lemma_batch_of_stored(rows, next_id, cells, front, now);
        assert(news.last() == news[news.len() - 1]);
        lemma_stored_stays_stored(rows, next_id, cells, front, now, news.last().key());
        lemma_position_of(table_after(rows, next_id, cells, front, now).0, news.last().key());
        assert forall|k: int| 0 <= k < news.len() implies #[trigger] written_at(
            rows,
            next_id,
            cells,
            news,
            now,
            k,
        ) by {
            let upto = news.subrange(0, k);
            assert forall|j: int| 0 <= j < upto.len() implies key_stored(
                rows,
                (#[trigger] upto[j]).key(),
            ) && cell_exists(cells, upto[j].cell_id) by {
                assert(upto[j] == news[j]);
            }
            lemma_batch_of_stored(rows, next_id, cells, upto, now);
            lemma_stored_stays_stored(rows, next_id, cells, upto, now, news[k].key());
        }
    }
}

/// A key that is stored before a run of writes is found after it.
proof fn lemma_stored_stays_stored(
    rows: Seq<PluginCell>,
    next_id: i32,
    cells: Seq<Cell>,
    news: Seq<UnsavedPluginCell>,
    now: Timestamp,
    key: (i32, i32),
)
    requires
        key_stored(rows, key),
    ensures
        position_of(table_after(rows, next_id, cells, news, now).0, key) is Some,
{
    let after = table_after(rows, next_id, cells, news, now).0;
    lemma_batch_grows(rows, next_id, cells, news, now, 0);
    assert(news.subrange(0, 0) =~= Seq::<UnsavedPluginCell>::empty());
    let i = choose|i: int| 0 <= i < rows.len() && (#[trigger] rows[i]).key() == key;
    assert(after[i].key() == rows[i].key());
    lemma_position_of(after, key);
}

/// Writing the same links a second time adds no row and uses no id, and
/// every write of the second run succeeds, where the cells that the
/// links point at are still stored. The rows of the two runs need only
/// agree in their keys.
pub proof fn lemma_batch_twice(
    rows: Seq<PluginCell>,
    next_id: i32,
    cells_then: Seq<Cell>,
    cells_after: Seq<Cell>,
    once: Seq<UnsavedPluginCell>,
    again: Seq<UnsavedPluginCell>,
    first: Timestamp,
    second: Timestamp,
)
    requires
        all_written(rows, next_id, cells_then, once, first),
        once.len() == again.len(),
        forall|k: int| 0 <= k < once.len() ==> (#[trigger] once[k]).key() == again[k].key(),
        forall|k: int|
            0 <= k < again.len() ==> cell_exists(cells_after, (#[trigger] again[k]).cell_id),
    ensures
        ({
            let then = table_after(rows, next_id, cells_then, once, first);
            let after = table_after(then.0, then.1, cells_after, again, second);
            &&& after.0.len() == then.0.len()
            &&& after.1 == then.1
            &&& all_written(then.0, then.1, cells_after, again, second)
        }),
{
    let then = table_after(rows, next_id, cells_then, once, first);
    assert forall|k: int| 0 <= k < again.len() implies key_stored(
        then.0,
        (#[trigger] again[k]).key(),
    ) && cell_exists(cells_after, again[k].cell_id) by {
        assert(once[k].key() == again[k].key());
        assert(written_at(rows, next_id, cells_then, once, first, k));
        lemma_batch_rows_stored(rows, next_id, cells_then, once, first, k);
    }
    lemma_batch_of_stored(then.0, then.1, cells_after, again, second);
}

/// Whether `row` is what a write of `new` leaves of its link: the row has
/// the key and the editor id of `new` and the moment of the write.
pub open spec fn is_written(row: PluginCell, new: UnsavedPluginCell, now: Timestamp) -> bool {
    row.key() == new.key() && row.editor_id == new.editor_id && row.updated_at == now
}

/// The link that a write of a run has written stands at the end of the
/// run with the editor id of that write, where no later write of the run
/// writes the same link.
pub proof fn lemma_batch_last_write(
    rows: Seq<PluginCell>,
    next_id: i32,
    cells: Seq<Cell>,
    news: Seq<UnsavedPluginCell>,
    now: Timestamp,
    k: int,
)
    requires
        0 <= k < news.len(),
        written_at(rows, next_id, cells, news, now, k),
        forall|j: int| k < j < news.len() ==> (#[trigger] news[j]).key() != news[k].key(),
    ensures
        exists|i: int|
            0 <= i < table_after(rows, next_id, cells, news, now).0.len() && is_written(
                #[trigger] table_after(rows, next_id, cells, news, now).0[i],
                news[k],
                now,
            ),
    decreases news.len(),
{
    let front = news.drop_last();
    let before = table_after(rows, next_id, cells, front, now);
    let after = table_after(rows, next_id, cells, news, now).0;
    if k == news.len() - 1 {
        assert(news.subrange(0, k) =~= front);
        lemma_position_of(before.0, news[k].key());
        match position_of(before.0, news[k].key()) {
            None => {
                assert(is_written(after[before.0.len() as int], news[k], now));
            },
            Some(i) => {
                assert(is_written(after[i], news[k], now));
            },
        }
    } else {
        assert(front.subrange(0, k) =~= news.subrange(0, k));
        assert(front[k] == news[k]);
        assert forall|j: int| k < j < front.len() implies (#[trigger] front[j]).key()
            != front[k].key() by {
            assert(front[j] == news[j]);
        }
        lemma_batch_last_write(rows, next_id, cells, front, now, k);
        let i = choose|i: int| 0 <= i < before.0.len() && is_written(#[trigger] before.0[i], news[k], now);
        assert(news.last() == news[news.len() - 1]);
        lemma_position_of(before.0, news.last().key());
        assert(before.0[i].key() != news.last().key());
        assert(after[i] == before.0[i]);
    }
}

/// The keys of the links to be written, in their order.
pub open spec fn new_keys_of(news: Seq<UnsavedPluginCell>) -> Seq<(i32, i32)> {
    Seq::new(news.len(), |k: int| news[k].key())
}

/// A run of writes leaves a link that it does not write as it is.
pub proof fn lemma_batch_spares_others(
    rows: Seq<PluginCell>,
    next_id: i32,
    cells: Seq<Cell>,
    news: Seq<UnsavedPluginCell>,
    now: Timestamp,
    i: int,
)
    requires
        0 <= i < rows.len(),
        forall|k: int| 0 <= k < news.len() ==> (#[trigger] news[k]).key() != rows[i].key(),
    ensures
        i < table_after(rows, next_id, cells, news, now).0.len(),
        table_after(rows, next_id, cells, news, now).0[i] == rows[i],
    decreases news.len(),
{
    if news.len() > 0 {
        let front = news.drop_last();
        assert forall|k: int| 0 <= k < front.len() implies (#[trigger] front[k]).key()
            != rows[i].key() by {
            assert(front[k] == news[k]);
        }
        lemma_batch_spares_others(rows, next_id, cells, front, now, i);
        assert(news.last() == news[news.len() - 1]);
        lemma_position_of(table_after(rows, next_id, cells, front, now).0, news.last().key());
    }
}

/// Writing the same links a second time changes nothing of any link but
/// the moment of its last write. The links of the two runs need only agree
/// in their keys and editor ids.
pub proof fn lemma_batch_twice_keeps_rows(
    rows: Seq<PluginCell>,
    next_id: i32,
    cells_then: Seq<Cell>,
    cells_after: Seq<Cell>,
    once: Seq<UnsavedPluginCell>,
    again: Seq<UnsavedPluginCell>,
    first: Timestamp,
    second: Timestamp,
)
    requires
        all_written(rows, next_id, cells_then, once, first),
        once.len() == again.len(),
        forall|k: int|
            0 <= k < once.len() ==> (#[trigger] once[k]).key() == again[k].key()
                && once[k].editor_id == again[k].editor_id,
        forall|k: int|
            0 <= k < again.len() ==> cell_exists(cells_after, (#[trigger] again[k]).cell_id),
        keys_unique(table_after(rows, next_id, cells_then, once, first).0),
        ({
            let then = table_after(rows, next_id, cells_then, once, first);
            keys_unique(table_after(then.0, then.1, cells_after, again, second).0)
        }),
    ensures
        ({
            let then = table_after(rows, next_id, cells_then, once, first);
            let after = table_after(then.0, then.1, cells_after, again, second);
            &&& after.0.len() == then.0.len()
            &&& forall|i: int|
                0 <= i < then.0.len() ==> #[trigger] after.0[i] == (PluginCell {
                    updated_at: after.0[i].updated_at,
                    ..then.0[i]
                })
        }),
{
    let then = table_after(rows, next_id, cells_then, once, first);
    let after = table_after(then.0, then.1, cells_after, again, second);
    lemma_batch_twice(rows, next_id, cells_then, cells_after, once, again, first, second);
    lemma_batch_grows(then.0, then.1, cells_after, again, second, 0);
    assert(again.subrange(0, 0) =~= Seq::<UnsavedPluginCell>::empty());
    assert forall|i: int| 0 <= i < then.0.len() implies #[trigger] after.0[i] == (PluginCell {
        updated_at: after.0[i].updated_at,
        ..then.0[i]
    }) by {
        let key = then.0[i].key();
        assert(is_later(then.0[i], after.0[i], second));
        if exists|k: int| 0 <= k < again.len() && (#[trigger] again[k]).key() == key {
            let keys = new_keys_of(again);
            let some = choose|k: int| 0 <= k < again.len() && (#[trigger] again[k]).key() == key;
            assert(keys[some] == key);
            lemma_last_at(keys, key);
            let k = choose|k: int|
                0 <= k < keys.len() && #[trigger] keys[k] == key && forall|j: int|
                    k < j < keys.len() ==> #[trigger] keys[j] != key;
            assert forall|j: int| k < j < again.len() implies (#[trigger] again[j]).key()
                != again[k].key() by {
                assert(keys[j] != key);
            }
            assert forall|j: int| k < j < once.len() implies (#[trigger] once[j]).key()
                != once[k].key() by {
                assert(once[j].key() == again[j].key());
                assert(keys[j] != key);
            }
            assert(once[k].key() == again[k].key());
            assert(written_at(rows, next_id, cells_then, once, first, k));
            lemma_batch_last_write(rows, next_id, cells_then, once, first, k);
            let a = choose|a: int|
                0 <= a < then.0.len() && is_written(#[trigger] then.0[a], once[k], first);
            if a < i {
                assert(then.0[a].key() != then.0[i].key());
            } else if i < a {
                assert(then.0[i].key() != then.0[a].key());
            }
            assert(written_at(then.0, then.1, cells_after, again, second, k));
            lemma_batch_last_write(then.0, then.1, cells_after, again, second, k);
            let b = choose|b: int|
                0 <= b < after.0.len() && is_written(#[trigger] after.0[b], again[k], second);
            if b < i {
                assert(after.0[b].key() != after.0[i].key());
            } else if i < b {
                assert(after.0[i].key() != after.0[b].key());
            }
        } else {
            lemma_batch_spares_others(then.0, then.1, cells_after, again, second, i);
        }
    }
}

/// A run of writes of links of which none is stored and no two are the
/// same adds one row for each, in their order and under the ids that
/// follow one another from the next, and leaves every other row as it is.
pub proof fn lemma_batch_of_new(
    rows: Seq<PluginCell>,
    next_id: i32,
    cells: Seq<Cell>,
    news: Seq<UnsavedPluginCell>,
    now: Timestamp,
)
    requires
        all_written(rows, next_id, cells, news, now),
        forall|k: int| 0 <= k < news.len() ==> position_of(rows, (#[trigger] news[k]).key()) is None,
        forall|j: int, k: int|
            0 <= j < k < news.len() ==> (#[trigger] news[j]).key() != (#[trigger] news[k]).key(),
    ensures
        ({
            let after = table_after(rows, next_id, cells, news, now);
            &&& after.0.len() == rows.len() + news.len()
            &&& after.1 == next_id + news.len()
            &&& forall|i: int| 0 <= i < rows.len() ==> #[trigger] after.0[i] == rows[i]
            &&& forall|k: int|
                0 <= k < news.len() ==> #[trigger] after.0[rows.len() + k] == created(
                    news[k],
                    (next_id + k) as i32,
                    now,
                )
        }),
    decreases news.len(),
{
    if news.len() > 0 {
        let front = news.drop_last();
        let last = news.len() - 1;
        lemma_run_of_new(rows, next_id, cells, news, now, last);
        lemma_batch_of_new(rows, next_id, cells, front, now);
        let before = table_after(rows, next_id, cells, front, now);
        assert(news.subrange(0, last) =~= front);
        lemma_none_of_new(rows, next_id, cells, news, now, last);
        assert(written_at(rows, next_id, cells, news, now, last));
        let after = table_after(rows, next_id, cells, news, now);
        assert(after.0 == before.0.push(created(news[last], before.1, now)));
        assert forall|k: int| 0 <= k < news.len() implies #[trigger] after.0[rows.len() + k]
            == created(news[k], (next_id + k) as i32, now) by {
            if k < last {
                assert(before.0[rows.len() + k] == created(front[k], (next_id + k) as i32, now));
            }
        }
    }
}

/// The first writes of a run of new links are such a run themselves.
proof fn lemma_run_of_new(
    rows: Seq<PluginCell>,
    next_id: i32,
    cells: Seq<Cell>,
    news: Seq<UnsavedPluginCell>,
    now: Timestamp,
    n: int,
)
    requires
        0 <= n <= news.len(),
        all_written(rows, next_id, cells, news, now),
        forall|k: int| 0 <= k < news.len() ==> position_of(rows, (#[trigger] news[k]).key()) is None,
        forall|j: int, k: int|
            0 <= j < k < news.len() ==> (#[trigger] news[j]).key() != (#[trigger] news[k]).key(),
    ensures
        ({
            let upto = news.subrange(0, n);
            &&& all_written(rows, next_id, cells, upto, now)
            &&& forall|k: int|
                0 <= k < upto.len() ==> position_of(rows, (#[trigger] upto[k]).key()) is None
            &&& forall|j: int, k: int|
                0 <= j < k < upto.len() ==> (#[trigger] upto[j]).key() != (#[trigger] upto[k]).key()
        }),
{
    let upto = news.subrange(0, n);
    assert forall|k: int| 0 <= k < upto.len() implies #[trigger] written_at(
        rows,
        next_id,
        cells, upto,
        now,
        k,
    ) by {
        assert(upto.subrange(0, k) =~= news.subrange(0, k));
        assert(upto[k] == news[k]);
        assert(written_at(rows, next_id, cells, news, now, k));
    }
    assert forall|k: int| 0 <= k < upto.len() implies position_of(
        rows,
        (#[trigger] upto[k]).key(),
    ) is None by {
        assert(upto[k] == news[k]);
    }
    assert forall|j: int, k: int| 0 <= j < k < upto.len() implies (#[trigger] upto[j]).key() != (
    #[trigger] upto[k]).key() by {
        assert(upto[j] == news[j] && upto[k] == news[k]);
    }
}

/// What write number `n` of a run of new links writes is not stored when
/// it is written.
proof fn lemma_none_of_new(
    rows: Seq<PluginCell>,
    next_id: i32,
    cells: Seq<Cell>,
    news: Seq<UnsavedPluginCell>,
    now: Timestamp,
    n: int,
)
    requires
        0 <= n < news.len(),
        position_of(rows, news[n].key()) is None,
        forall|j: int| 0 <= j < n ==> (#[trigger] news[j]).key() != news[n].key(),
        ({
            let before = table_after(rows, next_id, cells, news.subrange(0, n), now);
            &&& before.0.len() == rows.len() + n
            &&& forall|i: int| 0 <= i < rows.len() ==> #[trigger] before.0[i] == rows[i]
            &&& forall|k: int|
                0 <= k < n ==> #[trigger] before.0[rows.len() + k] == created(
                    news.subrange(0, n)[k],
                    (next_id + k) as i32,
                    now,
                )
        }),
    ensures
        position_of(table_after(rows, next_id, cells, news.subrange(0, n), now).0, news[n].key())
            is None,
{
    let before = table_after(rows, next_id, cells, news.subrange(0, n), now);
    let key = news[n].key();
    lemma_position_of(rows, key);
    lemma_position_of(before.0, key);
    if let Some(i) = position_of(before.0, key) {
        if i < rows.len() {
            assert(before.0[i] == rows[i]);
        } else {
            let k = i - rows.len();
            assert(before.0[rows.len() + k] == created(
                news.subrange(0, n)[k],
                (next_id + k) as i32,
                now,
            ));
            assert(news.subrange(0, n)[k] == news[k]);
        }
    }
}

/// Whether no two of the rows share a key.
pub open spec fn rows_differ(news: Seq<UnsavedPluginCell>) -> bool {
    forall|j: int, k: int|
        0 <= j < k < news.len() ==> (#[trigger] news[j]).key() != (#[trigger] news[k]).key()
}

/// Tells whether no two of the links to be written are the same, so
/// that they can be written by one statement: a statement writes no row
/// twice.
pub fn keys_differ(news: &[UnsavedPluginCell]) -> (r: bool)
    ensures
        r == rows_differ(news@),
{
    let mut k: usize = 0;
    while k < news.len()
        invariant
            k <= news.len(),
            forall|a: int, b: int|
                0 <= a < b < k ==> (#[trigger] news@[a]).key() != (#[trigger] news@[b]).key(),
        decreases news.len() - k,
    {
        let mut j: usize = 0;
        while j < k
            invariant
                j <= k,
                k < news.len(),
                forall|a: int| 0 <= a < j ==> (#[trigger] news@[a]).key() != news@[k as int].key(),
            decreases k - j,
        {
            if news[j].plugin_id == news[k].plugin_id && news[j].cell_id == news[k].cell_id {
                return false;
            }
            j += 1;
        }
        k += 1;
    }
    true
}

} // verus!

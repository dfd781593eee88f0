//! Cells: the spatial units of the game world.

use vstd::prelude::*;
use crate::models::{first_at, lemma_first_at, lemma_last_at};
use crate::text::str_eq;
use crate::time::Timestamp;

verus! {

/// A stored cell. A cell without a worldspace is an interior cell; one
/// with a worldspace is an exterior cell and lies at a place on its grid.
#[derive(Debug, Clone, PartialEq)]
pub struct Cell {
    pub id: i32,
    pub form_id: i32,
    pub master: String,
    pub x: Option<i32>,
    pub y: Option<i32>,
    pub world_id: Option<i32>,
    pub is_persistent: bool,
    /// Whether the cell was seeded from the base plugin of the game.
    pub is_base_game: bool,
    pub updated_at: Timestamp,
    pub created_at: Timestamp,
}

/// A cell to be written.
#[derive(Debug, Clone, PartialEq)]
pub struct UnsavedCell {
    pub form_id: i32,
    pub master: String,
    pub x: Option<i32>,
    pub y: Option<i32>,
    pub world_id: Option<i32>,
    pub is_persistent: bool,
}

impl Cell {
    /// What identifies a cell: its form id, the name of its master, and
    /// its worldspace.
    pub open spec fn key(self) -> (i32, Seq<char>, Option<i32>) {
        (self.form_id, self.master@, self.world_id)
    }

    /// A copy of the row.
    pub fn duplicate(&self) -> (r: Cell)
        ensures
            r == *self,
    {
        Cell {
            id: self.id,
            form_id: self.form_id,
            master: self.master.clone(),
            x: self.x,
            y: self.y,
            world_id: self.world_id,
            is_persistent: self.is_persistent,
            is_base_game: self.is_base_game,
            updated_at: self.updated_at,
            created_at: self.created_at,
        }
    }
}

impl UnsavedCell {
    /// What identifies the cell.
    pub open spec fn key(self) -> (i32, Seq<char>, Option<i32>) {
        (self.form_id, self.master@, self.world_id)
    }
}

/// Who writes cells.
#[derive(Debug, Clone, Copy, PartialEq, Eq, Structural)]
pub enum CellMode {
    /// The ingestion of a mod: cells of the base game are left as they
    /// are.
    Normal,
    /// The seeding of the cells of the base game, which may overwrite
    /// them, and marks what it writes as theirs.
    BaseGameSeed,
}

/// Why a row could not be written.
#[derive(Debug, Clone, Copy, PartialEq, Eq, Structural)]
pub enum StoreError {
    /// The table has handed out every id it has.
    IdsExhausted,
    /// The row refers to a row of another table that does not exist.
    MissingReference,
}

/// The table of cells: its rows in the order in which they were first
/// written, and the id that the next new row gets.
///
/// This is the table as the statements of the persistence layer see it. A
/// write goes by the key of a cell: a cell that is not yet there is added
/// under a new id, a cell that is there is overwritten in place.
#[derive(Debug, Clone, PartialEq)]
pub struct CellTable {
    pub rows: Vec<Cell>,
    pub next_id: i32,
}

/// The keys of the rows, in the order of the rows.
pub open spec fn keys_of(rows: Seq<Cell>) -> Seq<(i32, Seq<char>, Option<i32>)> {
    Seq::new(rows.len(), |i: int| rows[i].key())
}

/// The position of the first row with the given key.
pub open spec fn position_of(rows: Seq<Cell>, key: (i32, Seq<char>, Option<i32>)) -> Option<int> {
    first_at(keys_of(rows), key)
}

/// No two rows share a key.
pub open spec fn keys_unique(rows: Seq<Cell>) -> bool {
    forall|i: int, j: int|
        0 <= i < j < rows.len() ==> (#[trigger] rows[i]).key() != (#[trigger] rows[j]).key()
}

/// No two rows share an id, and every id is below the next to be handed
/// out.
pub open spec fn ids_issued(rows: Seq<Cell>, next_id: int) -> bool {
    &&& forall|i: int| 0 <= i < rows.len() ==> (#[trigger] rows[i]).id < next_id
    &&& forall|i: int, j: int|
        0 <= i < j < rows.len() ==> (#[trigger] rows[i]).id != (#[trigger] rows[j]).id
}

/// The row that a write adds for a cell that is not yet there.
pub open spec fn created(new: UnsavedCell, id: i32, mode: CellMode, now: Timestamp) -> Cell {
    Cell {
        id,
        form_id: new.form_id,
        master: new.master,
        x: new.x,
        y: new.y,
        world_id: new.world_id,
        is_persistent: new.is_persistent,
        is_base_game: mode == CellMode::BaseGameSeed,
        updated_at: now,
        created_at: now,
    }
}

/// The row that a write leaves of a cell that is already there: its place
/// on the grid and its persistence are overwritten and the moment is
/// recorded; id, key and the moment of creation stay.
pub open spec fn overwritten(old: Cell, new: UnsavedCell, mode: CellMode, now: Timestamp) -> Cell {
    Cell {
        x: new.x,
        y: new.y,
        is_persistent: new.is_persistent,
        is_base_game: old.is_base_game || mode == CellMode::BaseGameSeed,
        updated_at: now,
        ..old
    }
}

/// Whether a write leaves a row that is already there as it is: an
/// ordinary ingestion does not touch a cell of the base game.
pub open spec fn is_protected(old: Cell, mode: CellMode) -> bool {
    old.is_base_game && mode == CellMode::Normal
}

/// The rows after a write.
pub open spec fn rows_after(
    rows: Seq<Cell>,
    next_id: i32,
    new: UnsavedCell,
    mode: CellMode,
    now: Timestamp,
) -> Seq<Cell> {
    match position_of(rows, new.key()) {
        None => if next_id == i32::MAX {
            rows
        } else {
            rows.push(created(new, next_id, mode, now))
        },
        Some(i) => if is_protected(rows[i], mode) {
            rows
        } else {
            rows.update(i, overwritten(rows[i], new, mode, now))
        },
    }
}

/// The id that the next new row gets after a write.
pub open spec fn next_id_after(rows: Seq<Cell>, next_id: i32, new: UnsavedCell) -> i32 {
    if position_of(rows, new.key()) is None && next_id < i32::MAX {
        (next_id + 1) as i32
    } else {
        next_id
    }
}

/// The row that a write hands back: the row of the cell as it stands
/// after the write, or an error where the cell is new and no id is left.
pub open spec fn row_returned(
    rows: Seq<Cell>,
    next_id: i32,
    new: UnsavedCell,
    mode: CellMode,
    now: Timestamp,
) -> Result<Cell, StoreError> {
    match position_of(rows, new.key()) {
        None => if next_id == i32::MAX {
            Err(StoreError::IdsExhausted)
        } else {
            Ok(created(new, next_id, mode, now))
        },
        Some(i) => Ok(rows_after(rows, next_id, new, mode, now)[i]),
    }
}

/// A key that is found is found at a row that has it, and at no earlier
/// row; a key that is not found is the key of no row.
pub proof fn lemma_position_of(rows: Seq<Cell>, key: (i32, Seq<char>, Option<i32>))
    ensures
        match position_of(rows, key) {
            Some(i) => 0 <= i < rows.len() && rows[i].key() == key && forall|j: int|
                0 <= j < i ==> (#[trigger] rows[j]).key() != key,
            None => forall|j: int| 0 <= j < rows.len() ==> (#[trigger] rows[j]).key() != key,
        },
{
    let keys = keys_of(rows);
    lemma_first_at(keys, key);
    assert forall|j: int| 0 <= j < rows.len() implies keys[j] == (#[trigger] rows[j]).key() by {}
}

impl CellTable {
    /// A table without rows.
    pub fn new() -> (r: CellTable)
        ensures
            r.rows@.len() == 0,
            r.next_id == 1,
            r.well_formed(),
    {
        CellTable { rows: Vec::new(), next_id: 1 }
    }

    /// No two rows share a key or an id, and the ids are below the next.
    pub open spec fn well_formed(self) -> bool {
        keys_unique(self.rows@) && ids_issued(self.rows@, self.next_id as int)
    }

    /// The position of the row with the key of `new`.
    fn find(&self, new: &UnsavedCell) -> (r: Option<usize>)
        ensures
            match r {
                Some(i) => position_of(self.rows@, new.key()) == Some(i as int) && i
                    < self.rows@.len(),
                None => position_of(self.rows@, new.key()) is None,
            },
    {
        let mut i: usize = 0;
        while i < self.rows.len()
            invariant
                i <= self.rows.len(),
                forall|j: int| 0 <= j < i ==> (#[trigger] self.rows@[j]).key() != new.key(),
            decreases self.rows.len() - i,
        {
            let row = &self.rows[i];
            if row.form_id == new.form_id && row.world_id == new.world_id && str_eq(
                row.master.as_str(),
                new.master.as_str(),
            ) {
                proof {
                    lemma_position_of(self.rows@, new.key());
                }
                return Some(i);
            }
            i += 1;
        }
        proof {
            lemma_position_of(self.rows@, new.key());
        }
        None
    }
}

/// Writes one cell: the statement that inserts a cell or, where a cell of
/// its key is there, overwrites it.
///
/// Hands back the row as it stands afterwards. In an ordinary ingestion a
/// cell of the base game is handed back as it was.
pub fn insert(table: &mut CellTable, new: &UnsavedCell, mode: CellMode, now: Timestamp) -> (r:
    Result<Cell, StoreError>)
    ensures
        final(table).rows@ == rows_after(old(table).rows@, old(table).next_id, *new, mode, now),
        final(table).next_id == next_id_after(old(table).rows@, old(table).next_id, *new),
        r == row_returned(old(table).rows@, old(table).next_id, *new, mode, now),
{
    match table.find(new) {
        None => {
            if table.next_id == i32::MAX {
                return Err(StoreError::IdsExhausted);
            }
            let row = Cell {
                id: table.next_id,
                form_id: new.form_id,
                master: new.master.clone(),
                x: new.x,
                y: new.y,
                world_id: new.world_id,
                is_persistent: new.is_persistent,
                is_base_game: match mode {
                    CellMode::BaseGameSeed => true,
                    CellMode::Normal => false,
                },
                updated_at: now,
                created_at: now,
            };
            let copy = row.duplicate();
            table.rows.push(row);
            table.next_id = table.next_id + 1;
            Ok(copy)
        },
        Some(i) => {
            let old_row = table.rows[i].duplicate();
            let seed: bool = match mode {
                CellMode::BaseGameSeed => true,
                CellMode::Normal => false,
            };
            if old_row.is_base_game && !seed {
                return Ok(old_row);
            }
            let row = Cell {
                id: old_row.id,
                form_id: old_row.form_id,
                master: old_row.master,
                x: new.x,
                y: new.y,
                world_id: old_row.world_id,
                is_persistent: new.is_persistent,
                is_base_game: old_row.is_base_game || seed,
                updated_at: now,
                created_at: old_row.created_at,
            };
            let copy = row.duplicate();
            table.rows.set(i, row);
            Ok(copy)
        },
    }
}

/// The first row with a key is where the key is found.
pub proof fn lemma_position_is(rows: Seq<Cell>, key: (i32, Seq<char>, Option<i32>), i: int)
    requires
        0 <= i < rows.len(),
        rows[i].key() == key,
        forall|j: int| 0 <= j < i ==> (#[trigger] rows[j]).key() != key,
    ensures
        position_of(rows, key) == Some(i),
{
    lemma_position_of(rows, key);
}

/// A write keeps a table well formed: afterwards no two rows share a key
/// or an id, as before. So a cell is stored once, however often it is
/// written.
pub proof fn lemma_insert_keeps_well_formed(
    rows: Seq<Cell>,
    next_id: i32,
    new: UnsavedCell,
    mode: CellMode,
    now: Timestamp,
)
    requires
        keys_unique(rows),
        ids_issued(rows, next_id as int),
    ensures
        keys_unique(rows_after(rows, next_id, new, mode, now)),
        ids_issued(
            rows_after(rows, next_id, new, mode, now),
            next_id_after(rows, next_id, new) as int,
        ),
{
    lemma_position_of(rows, new.key());
    let after = rows_after(rows, next_id, new, mode, now);
    assert forall|i: int, j: int| 0 <= i < j < after.len() implies (#[trigger] after[i]).key() != (
    #[trigger] after[j]).key() by {
        if i < rows.len() {
            assert(after[i].key() == rows[i].key());
        }
        if j < rows.len() {
            assert(after[j].key() == rows[j].key());
        }
    }
    assert forall|i: int, j: int| 0 <= i < j < after.len() implies (#[trigger] after[i]).id != (
    #[trigger] after[j]).id by {
        if i < rows.len() {
            assert(after[i].id == rows[i].id);
        }
        if j < rows.len() {
            assert(after[j].id == rows[j].id);
        }
    }
    assert forall|i: int| 0 <= i < after.len() implies (#[trigger] after[i]).id < next_id_after(
        rows,
        next_id,
        new,
    ) by {
        if i < rows.len() {
            assert(after[i].id == rows[i].id);
        }
    }
}

/// An ordinary ingestion overwrites no cell of the base game: whatever
/// cell it writes, every row that is marked as a cell of the base game is
/// afterwards what it was before, field for field, and no row is lost.
pub proof fn lemma_insert_spares_base_game(
    rows: Seq<Cell>,
    next_id: i32,
    new: UnsavedCell,
    now: Timestamp,
)
    ensures
        rows_after(rows, next_id, new, CellMode::Normal, now).len() >= rows.len(),
        forall|i: int|
            0 <= i < rows.len() && (#[trigger] rows[i]).is_base_game ==> rows_after(
                rows,
                next_id,
                new,
                CellMode::Normal,
                now,
            )[i] == rows[i],
{
    lemma_position_of(rows, new.key());
}

/// A write changes at most the row of the cell it writes: every other row
/// stays as it is and where it is, and the row of the cell keeps its id,
/// its key and the moment of its creation.
pub proof fn lemma_insert_touches_one_row(
    rows: Seq<Cell>,
    next_id: i32,
    new: UnsavedCell,
    mode: CellMode,
    now: Timestamp,
)
    ensures
        forall|i: int|
            0 <= i < rows.len() ==> {
                let after = rows_after(rows, next_id, new, mode, now);
                &&& i < after.len()
                &&& (#[trigger] rows[i]).key() != new.key() ==> after[i] == rows[i]
                &&& after[i].id == rows[i].id
                &&& after[i].key() == rows[i].key()
                &&& after[i].created_at == rows[i].created_at
            },
{
    lemma_position_of(rows, new.key());
}

/// Whether two rows agree in everything but the moment of the last write.
pub open spec fn same_but_for_update(a: Cell, b: Cell) -> bool {
    a == (Cell { updated_at: a.updated_at, ..b })
}

/// Writing the same cell a second time adds no row and changes no field
/// but the moment of the last write: the table holds the same rows as
/// after the first write, the second write hands back the row that the
/// first handed back, under the same id, and the row carries the moment of
/// the second write where it was written at all.
pub proof fn lemma_insert_twice(
    rows: Seq<Cell>,
    next_id: i32,
    new: UnsavedCell,
    mode: CellMode,
    first: Timestamp,
    second: Timestamp,
)
    ensures
        ({
            let once = rows_after(rows, next_id, new, mode, first);
            let id_once = next_id_after(rows, next_id, new);
            let twice = rows_after(once, id_once, new, mode, second);
            let handed_once = row_returned(rows, next_id, new, mode, first);
            let handed_twice = row_returned(once, id_once, new, mode, second);
            &&& twice.len() == once.len()
            &&& next_id_after(once, id_once, new) == id_once
            &&& forall|i: int|
                0 <= i < once.len() ==> same_but_for_update(#[trigger] twice[i], once[i])
            &&& forall|i: int|
                0 <= i < once.len() && (#[trigger] twice[i]).updated_at != once[i].updated_at
                    ==> twice[i].updated_at == second && twice[i].key() == new.key()
            &&& handed_once matches Ok(a) ==> handed_twice matches Ok(b) && same_but_for_update(
                b,
                a,
            )
            &&& handed_once is Err ==> handed_twice == handed_once && twice == rows
        }),
{
    lemma_position_of(rows, new.key());
    let once = rows_after(rows, next_id, new, mode, first);
    let id_once = next_id_after(rows, next_id, new);
    match position_of(rows, new.key()) {
        None => {
            if next_id < i32::MAX {
                assert forall|j: int| 0 <= j < rows.len() implies (#[trigger] once[j]).key()
                    != new.key() by {
                    assert(once[j] == rows[j]);
                }
                lemma_position_is(once, new.key(), rows.len() as int);
            }
        },
        Some(i) => {
            assert forall|j: int| 0 <= j < i implies (#[trigger] once[j]).key() != new.key() by {
                assert(once[j] == rows[j]);
            }
            lemma_position_is(once, new.key(), i);
        },
    }
}

/// The table after a run of writes, one after the other in the order
/// given.
pub open spec fn table_after(
    rows: Seq<Cell>,
    next_id: i32,
    news: Seq<UnsavedCell>,
    mode: CellMode,
    now: Timestamp,
) -> (Seq<Cell>, i32)
    decreases news.len(),
{
    if news.len() == 0 {
        (rows, next_id)
    } else {
        let before = table_after(rows, next_id, news.drop_last(), mode, now);
        (
            rows_after(before.0, before.1, news.last(), mode, now),
            next_id_after(before.0, before.1, news.last()),
        )
    }
}

/// The row that write number `k` of a run hands back.
pub open spec fn returned_at(
    rows: Seq<Cell>,
    next_id: i32,
    news: Seq<UnsavedCell>,
    mode: CellMode,
    now: Timestamp,
    k: int,
) -> Result<Cell, StoreError> {
    let before = table_after(rows, next_id, news.subrange(0, k), mode, now);
    row_returned(before.0, before.1, news[k], mode, now)
}

/// The rows that a run of writes hands back, one for each write and in
/// their order, where every write succeeds.
pub open spec fn returned_rows(
    rows: Seq<Cell>,
    next_id: i32,
    news: Seq<UnsavedCell>,
    mode: CellMode,
    now: Timestamp,
) -> Seq<Cell> {
    Seq::new(news.len(), |k: int| returned_at(rows, next_id, news, mode, now, k)->Ok_0)
}

/// Whether write number `k` of a run hands back exactly this row.
pub open spec fn returns_row(
    rows: Seq<Cell>,
    next_id: i32,
    news: Seq<UnsavedCell>,
    mode: CellMode,
    now: Timestamp,
    k: int,
    row: Cell,
) -> bool {
    returned_at(rows, next_id, news, mode, now, k) == Ok::<Cell, StoreError>(row)
}

/// Writes cells one after the other, in the order given, and hands back
/// their rows in that order, one for each cell written.
///
/// The run ends at the first cell that cannot be written; what was written
/// before it stays written.
pub fn batched_insert(table: &mut CellTable, news: &Vec<UnsavedCell>, mode: CellMode, now: Timestamp)
    -> (r: Result<Vec<Cell>, StoreError>)
    ensures
        match r {
            Ok(written) => {
                &&& written@.len() == news@.len()
                &&& (final(table).rows@, final(table).next_id) == table_after(
                    old(table).rows@,
                    old(table).next_id,
                    news@,
                    mode,
                    now,
                )
                &&& forall|k: int|
                    0 <= k < news@.len() ==> returns_row(
                        old(table).rows@,
                        old(table).next_id,
                        news@,
                        mode,
                        now,
                        k,
                        #[trigger] written@[k],
                    )
            },
            Err(e) => exists|k: int|
                {
                    &&& 0 <= k < news@.len()
                    &&& (final(table).rows@, final(table).next_id) == #[trigger] table_after(
                        old(table).rows@,
                        old(table).next_id,
                        news@.subrange(0, k),
                        mode,
                        now,
                    )
                    &&& returned_at(old(table).rows@, old(table).next_id, news@, mode, now, k)
                        == Err::<Cell, StoreError>(e)
                },
        },
{
    let mut written: Vec<Cell> = Vec::new();
    let mut i: usize = 0;
    while i < news.len()
        invariant
            i <= news.len(),
            written@.len() == i,
            (table.rows@, table.next_id) == table_after(
                old(table).rows@,
                old(table).next_id,
                news@.subrange(0, i as int),
                mode,
                now,
            ),
            forall|k: int|
                0 <= k < i ==> returns_row(
                    old(table).rows@,
                    old(table).next_id,
                    news@,
                    mode,
                    now,
                    k,
                    #[trigger] written@[k],
                ),
        decreases news.len() - i,
    {
        let ghost longer = news@.subrange(0, i + 1);
        assert(longer.drop_last() =~= news@.subrange(0, i as int));
        assert(longer.last() == news@[i as int]);
        match insert(table, &news[i], mode, now) {
            Ok(row) => {
                written.push(row);
            },
            Err(e) => {
                return Err(e);
            },
        }
        i += 1;
    }
    assert(news@.subrange(0, news.len() as int) =~= news@);
    Ok(written)
}

/// A run of writes keeps a table well formed.
pub proof fn lemma_batch_keeps_well_formed(
    rows: Seq<Cell>,
    next_id: i32,
    news: Seq<UnsavedCell>,
    mode: CellMode,
    now: Timestamp,
)
    requires
        keys_unique(rows),
        ids_issued(rows, next_id as int),
    ensures
        keys_unique(table_after(rows, next_id, news, mode, now).0),
        ids_issued(
            table_after(rows, next_id, news, mode, now).0,
            table_after(rows, next_id, news, mode, now).1 as int,
        ),
    decreases news.len(),
{
    if news.len() > 0 {
        lemma_batch_keeps_well_formed(rows, next_id, news.drop_last(), mode, now);
        let before = table_after(rows, next_id, news.drop_last(), mode, now);
        lemma_insert_keeps_well_formed(before.0, before.1, news.last(), mode, now);
    }
}

/// A run of writes loses no row and changes the id of none.
pub proof fn lemma_batch_keeps_ids(
    rows: Seq<Cell>,
    next_id: i32,
    news: Seq<UnsavedCell>,
    mode: CellMode,
    now: Timestamp,
)
    ensures
        table_after(rows, next_id, news, mode, now).0.len() >= rows.len(),
        forall|i: int|
            0 <= i < rows.len() ==> (#[trigger] table_after(rows, next_id, news, mode, now).0[i]).id
                == rows[i].id,
    decreases news.len(),
{
    if news.len() > 0 {
        lemma_batch_keeps_ids(rows, next_id, news.drop_last(), mode, now);
        let before = table_after(rows, next_id, news.drop_last(), mode, now);
        lemma_insert_touches_one_row(before.0, before.1, news.last(), mode, now);
        lemma_position_of(before.0, news.last().key());
        let after = table_after(rows, next_id, news, mode, now).0;
        assert(after.len() >= before.0.len());
        assert forall|i: int| 0 <= i < rows.len() implies (#[trigger] after[i]).id == rows[i].id by {
            assert(before.0[i].id == rows[i].id);
            assert(after[i].id == before.0[i].id);
        }
    }
}

/// A run of ordinary writes overwrites no cell of the base game.
pub proof fn lemma_batch_spares_base_game(
    rows: Seq<Cell>,
    next_id: i32,
    news: Seq<UnsavedCell>,
    now: Timestamp,
)
    ensures
        table_after(rows, next_id, news, CellMode::Normal, now).0.len() >= rows.len(),
        forall|i: int|
            0 <= i < rows.len() && (#[trigger] rows[i]).is_base_game ==> table_after(
                rows,
                next_id,
                news,
                CellMode::Normal,
                now,
            ).0[i] == rows[i],
    decreases news.len(),
{
    if news.len() > 0 {
        lemma_batch_spares_base_game(rows, next_id, news.drop_last(), now);
        let before = table_after(rows, next_id, news.drop_last(), CellMode::Normal, now);
        lemma_insert_spares_base_game(before.0, before.1, news.last(), now);
        assert forall|i: int| 0 <= i < rows.len() && (#[trigger] rows[i]).is_base_game implies table_after(
            rows,
            next_id,
            news,
            CellMode::Normal,
            now,
        ).0[i] == rows[i] by {
            assert(before.0[i] == rows[i]);
        }
    }
}

/// Whether a cell with the given id is stored.
pub open spec fn id_stored(rows: Seq<Cell>, id: i32) -> bool {
    exists|i: int| 0 <= i < rows.len() && (#[trigger] rows[i]).id == id
}

/// Whether a cell is stored under the given id and key.
pub open spec fn row_stored(rows: Seq<Cell>, id: i32, key: (i32, Seq<char>, Option<i32>)) -> bool {
    exists|i: int| 0 <= i < rows.len() && (#[trigger] rows[i]).id == id && rows[i].key() == key
}

/// The row that a write hands back is stored under the key that was
/// written.
pub proof fn lemma_returned_is_stored(
    rows: Seq<Cell>,
    next_id: i32,
    new: UnsavedCell,
    mode: CellMode,
    now: Timestamp,
)
    ensures
        row_returned(rows, next_id, new, mode, now) matches Ok(row) ==> row.key() == new.key()
            && row_stored(rows_after(rows, next_id, new, mode, now), row.id, new.key()),
{
    lemma_position_of(rows, new.key());
    let after = rows_after(rows, next_id, new, mode, now);
    match position_of(rows, new.key()) {
        None => {
            if next_id < i32::MAX {
                assert(after[rows.len() as int] == created(new, next_id, mode, now));
            }
        },
        Some(i) => {
            assert(after[i].key() == new.key());
        },
    }
}

/// The next id never falls, and rises by no more than the rows written.
pub proof fn lemma_next_id_bounds(
    rows: Seq<Cell>,
    next_id: i32,
    news: Seq<UnsavedCell>,
    mode: CellMode,
    now: Timestamp,
)
    ensures
        next_id <= table_after(rows, next_id, news, mode, now).1 <= next_id + news.len(),
    decreases news.len(),
{
    if news.len() > 0 {
        lemma_next_id_bounds(rows, next_id, news.drop_last(), mode, now);
    }
}

/// Whether `later` is what writes at `now` leave of the row `then`: id,
/// form id, master, worldspace and the moment of creation stay; the moment
/// of the last write is as it was or `now`; a cell of the base game stays
/// one, and an ordinary ingestion leaves it as it is and makes no cell a
/// cell of the base game.
pub open spec fn is_later(then: Cell, later: Cell, mode: CellMode, now: Timestamp) -> bool {
    &&& later == (Cell {
        x: later.x,
        y: later.y,
        is_persistent: later.is_persistent,
        is_base_game: later.is_base_game,
        updated_at: later.updated_at,
        ..then
    })
    &&& later.updated_at == then.updated_at || later.updated_at == now
    &&& then.is_base_game ==> later.is_base_game
    &&& mode == CellMode::Normal ==> later.is_base_game == then.is_base_game
    &&& mode == CellMode::Normal && then.is_base_game ==> later == then
}

/// A longer run of writes keeps what a shorter run of the same writes has
/// stored: no row is lost, and every row is what later writes leave of it.
pub proof fn lemma_batch_grows(
    rows: Seq<Cell>,
    next_id: i32,
    news: Seq<UnsavedCell>,
    mode: CellMode,
    now: Timestamp,
    k: int,
)
    requires
        0 <= k <= news.len(),
    ensures
        ({
            let shorter = table_after(rows, next_id, news.subrange(0, k), mode, now).0;
            let longer = table_after(rows, next_id, news, mode, now).0;
            &&& longer.len() >= shorter.len()
            &&& forall|i: int|
                0 <= i < shorter.len() ==> is_later(shorter[i], #[trigger] longer[i], mode, now)
        }),
    decreases news.len() - k,
{
    if k == news.len() {
        assert(news.subrange(0, k) =~= news);
    } else {
        let front = news.drop_last();
        assert(front.subrange(0, k) =~= news.subrange(0, k));
        lemma_batch_grows(rows, next_id, front, mode, now, k);
        let before = table_after(rows, next_id, front, mode, now);
        lemma_insert_touches_one_row(before.0, before.1, news.last(), mode, now);
        lemma_position_of(before.0, news.last().key());
        let shorter = table_after(rows, next_id, news.subrange(0, k), mode, now).0;
        let longer = table_after(rows, next_id, news, mode, now).0;
        assert(longer.len() >= before.0.len());
        assert forall|i: int| 0 <= i < shorter.len() implies is_later(shorter[i], #[trigger] longer[i], mode, now) by {
            assert(is_later(shorter[i], before.0[i], mode, now));
            assert(is_later(before.0[i], longer[i], mode, now));
        }
    }
}

/// Every row that a run of writes hands back is stored at the end of the
/// run, under the key that was written.
pub proof fn lemma_batch_rows_stored(
    rows: Seq<Cell>,
    next_id: i32,
    news: Seq<UnsavedCell>,
    mode: CellMode,
    now: Timestamp,
    k: int,
)
    requires
        0 <= k < news.len(),
    ensures
        returned_at(rows, next_id, news, mode, now, k) matches Ok(row) ==> row.key()
            == news[k].key() && row_stored(
            table_after(rows, next_id, news, mode, now).0,
            row.id,
            news[k].key(),
        ),
{
    let before = table_after(rows, next_id, news.subrange(0, k), mode, now);
    lemma_returned_is_stored(before.0, before.1, news[k], mode, now);
    let upto = news.subrange(0, k + 1);
    assert(upto.drop_last() =~= news.subrange(0, k));
    assert(upto.last() == news[k]);
    let then = table_after(rows, next_id, upto, mode, now).0;
    assert(then == rows_after(before.0, before.1, news[k], mode, now));
    lemma_batch_grows(rows, next_id, news, mode, now, k + 1);
    let end = table_after(rows, next_id, news, mode, now).0;
    if let Ok(row) = returned_at(rows, next_id, news, mode, now, k) {
        let i = choose|i: int|
            0 <= i < then.len() && (#[trigger] then[i]).id == row.id && then[i].key()
                == news[k].key();
        assert(end[i].id == row.id && end[i].key() == news[k].key());
    }
}

/// A run of writes for which ids are left succeeds at every write.
pub proof fn lemma_batch_has_room(
    rows: Seq<Cell>,
    next_id: i32,
    news: Seq<UnsavedCell>,
    mode: CellMode,
    now: Timestamp,
    k: int,
)
    requires
        0 <= k < news.len(),
        next_id + news.len() <= i32::MAX,
    ensures
        returned_at(rows, next_id, news, mode, now, k) is Ok,
{
    lemma_next_id_bounds(rows, next_id, news.subrange(0, k), mode, now);
}

/// Whether every write of a run succeeds.
pub open spec fn all_written(
    rows: Seq<Cell>,
    next_id: i32,
    news: Seq<UnsavedCell>,
    mode: CellMode,
    now: Timestamp,
) -> bool {
    forall|k: int| 0 <= k < news.len() ==> (#[trigger] returned_at(rows, next_id, news, mode, now, k)) is Ok
}

/// A run of writes of cells that are all stored adds no row and
/// uses no id, and every write hands back the stored row of its
/// cell, under the id that the row had.
pub proof fn lemma_batch_of_stored(
    rows: Seq<Cell>,
    next_id: i32,
    news: Seq<UnsavedCell>,
    mode: CellMode,
    now: Timestamp,
)
    requires
        forall|k: int| 0 <= k < news.len() ==> position_of(rows, (#[trigger] news[k]).key()) is Some,
    ensures
        table_after(rows, next_id, news, mode, now).0.len() == rows.len(),
        table_after(rows, next_id, news, mode, now).1 == next_id,
        forall|k: int|
            0 <= k < news.len() ==> (#[trigger] returned_at(rows, next_id, news, mode, now, k)) is Ok
                && returned_at(rows, next_id, news, mode, now, k)->Ok_0.id == rows[position_of(
                rows,
                news[k].key(),
            )->0].id,
    decreases news.len(),
{
    if news.len() > 0 {
        let front = news.drop_last();
        assert forall|k: int| 0 <= k < front.len() implies position_of(
            rows,
            (#[trigger] front[k]).key(),
        ) is Some by {
            assert(front[k] == news[k]);
        }
        lemma_batch_of_stored(rows, next_id, front, mode, now);
        lemma_same_keys_same_position(rows, next_id, front, mode, now, news.last().key());
        assert(news.last() == news[news.len() - 1]);
        lemma_position_of(rows, news.last().key());
        assert forall|k: int| 0 <= k < news.len() implies (#[trigger] returned_at(
            rows,
            next_id,
            news,
            mode,
            now,
            k,
        )) is Ok && returned_at(rows, next_id, news, mode, now, k)->Ok_0.id == rows[position_of(
            rows,
            news[k].key(),
        )->0].id by {
            let upto = news.subrange(0, k);
            assert forall|j: int| 0 <= j < upto.len() implies position_of(
                rows,
                (#[trigger] upto[j]).key(),
            ) is Some by {
                assert(upto[j] == news[j]);
            }
            lemma_batch_of_stored(rows, next_id, upto, mode, now);
            lemma_same_keys_same_position(rows, next_id, upto, mode, now, news[k].key());
            lemma_batch_grows(rows, next_id, upto, mode, now, 0);
            lemma_position_of(rows, news[k].key());
        }
    }
}

/// A key is found after a run of writes that added no row where it was
/// found before the run.
proof fn lemma_same_keys_same_position(
    rows: Seq<Cell>,
    next_id: i32,
    news: Seq<UnsavedCell>,
    mode: CellMode,
    now: Timestamp,
    key: (i32, Seq<char>, Option<i32>),
)
    requires
        table_after(rows, next_id, news, mode, now).0.len() == rows.len(),
    ensures
        position_of(table_after(rows, next_id, news, mode, now).0, key) == position_of(rows, key),
{
    let after = table_after(rows, next_id, news, mode, now).0;
    lemma_batch_grows(rows, next_id, news, mode, now, 0);
    assert(news.subrange(0, 0) =~= Seq::<UnsavedCell>::empty());
    lemma_position_of(rows, key);
    lemma_position_of(after, key);
    match position_of(rows, key) {
        Some(i) => {
            assert forall|j: int| 0 <= j < i implies (#[trigger] after[j]).key() != key by {
                assert(after[j].key() == rows[j].key());
            }
            assert(after[i].key() == rows[i].key());
            lemma_position_is(after, key, i);
        },
        None => {
            if let Some(i) = position_of(after, key) {
                assert(after[i].key() == rows[i].key());
            }
        },
    }
}

/// Writing the same cells a second time adds no row and uses no id, and
/// every write of the second run hands back a row with the id and the key
/// of the row that the same write of the first run handed back. The rows
/// of the two runs need only agree in their keys.
pub proof fn lemma_batch_twice(
    rows: Seq<Cell>,
    next_id: i32,
    once: Seq<UnsavedCell>,
    again: Seq<UnsavedCell>,
    mode: CellMode,
    first: Timestamp,
    second: Timestamp,
)
    requires
        keys_unique(table_after(rows, next_id, once, mode, first).0),
        all_written(rows, next_id, once, mode, first),
        once.len() == again.len(),
        forall|k: int| 0 <= k < once.len() ==> (#[trigger] once[k]).key() == again[k].key(),
    ensures
        ({
            let then = table_after(rows, next_id, once, mode, first);
            let after = table_after(then.0, then.1, again, mode, second);
            &&& after.0.len() == then.0.len()
            &&& after.1 == then.1
            &&& all_written(then.0, then.1, again, mode, second)
            &&& forall|k: int|
                0 <= k < once.len() ==> {
                    let a = (#[trigger] returned_at(rows, next_id, once, mode, first, k))->Ok_0;
                    let b = returned_at(then.0, then.1, again, mode, second, k)->Ok_0;
                    b.id == a.id && b.key() == a.key()
                }
        }),
{
    let then = table_after(rows, next_id, once, mode, first);
    assert forall|k: int| 0 <= k < again.len() implies position_of(
        then.0,
        (#[trigger] again[k]).key(),
    ) is Some by {
        assert(once[k].key() == again[k].key());
        assert(returned_at(rows, next_id, once, mode, first, k) is Ok);
        lemma_batch_rows_stored(rows, next_id, once, mode, first, k);
        lemma_position_of(then.0, again[k].key());
    }
    lemma_batch_of_stored(then.0, then.1, again, mode, second);
    assert forall|k: int| 0 <= k < once.len() implies {
        let a = (#[trigger] returned_at(rows, next_id, once, mode, first, k))->Ok_0;
        let b = returned_at(then.0, then.1, again, mode, second, k)->Ok_0;
        b.id == a.id && b.key() == a.key()
    } by {
        let a = returned_at(rows, next_id, once, mode, first, k)->Ok_0;
        let b = returned_at(then.0, then.1, again, mode, second, k)->Ok_0;
        assert(once[k].key() == again[k].key());
        assert(returned_at(rows, next_id, once, mode, first, k) is Ok);
        assert(returned_at(then.0, then.1, again, mode, second, k) is Ok);
        lemma_batch_rows_stored(rows, next_id, once, mode, first, k);
        lemma_batch_rows_stored(then.0, then.1, again, mode, second, k);
        lemma_position_of(then.0, again[k].key());
        let i = position_of(then.0, again[k].key())->0;
        let j = choose|j: int|
            0 <= j < then.0.len() && (#[trigger] then.0[j]).id == a.id && then.0[j].key()
                == once[k].key();
        if i < j {
            assert(then.0[i].key() != then.0[j].key());
        } else if j < i {
            assert(then.0[j].key() != then.0[i].key());
        }
    }
}

/// Whether `row` is what a write of `new` leaves of its cell: the row has
/// the key of `new`, and it is a cell of the base game that an ordinary
/// ingestion found and left alone, or it has the place on the grid and the
/// persistence of `new` and the moment of the write. What the seed writes
/// is a cell of the base game.
pub open spec fn is_written(row: Cell, new: UnsavedCell, mode: CellMode, now: Timestamp) -> bool {
    &&& row.key() == new.key()
    &&& mode == CellMode::BaseGameSeed ==> row.is_base_game
    &&& if row.is_base_game && mode == CellMode::Normal {
        true
    } else {
        &&& row.x == new.x
        &&& row.y == new.y
        &&& row.is_persistent == new.is_persistent
        &&& row.updated_at == now
    }
}

/// The row that a write hands back is what the write leaves of its cell.
pub proof fn lemma_returned_is_written(
    rows: Seq<Cell>,
    next_id: i32,
    new: UnsavedCell,
    mode: CellMode,
    now: Timestamp,
)
    ensures
        row_returned(rows, next_id, new, mode, now) matches Ok(row) ==> is_written(
            row,
            new,
            mode,
            now,
        ),
{
    lemma_position_of(rows, new.key());
}

/// The row that a write of a run hands back stands at the end of the run
/// as it was handed back, where no later write of the run writes the same
/// cell.
pub proof fn lemma_batch_last_write(
    rows: Seq<Cell>,
    next_id: i32,
    news: Seq<UnsavedCell>,
    mode: CellMode,
    now: Timestamp,
    k: int,
)
    requires
        0 <= k < news.len(),
        returned_at(rows, next_id, news, mode, now, k) is Ok,
        forall|j: int| k < j < news.len() ==> (#[trigger] news[j]).key() != news[k].key(),
    ensures
        table_after(rows, next_id, news, mode, now).0.contains(
            returned_at(rows, next_id, news, mode, now, k)->Ok_0,
        ),
        is_written(returned_at(rows, next_id, news, mode, now, k)->Ok_0, news[k], mode, now),
    decreases news.len(),
{
    let row = returned_at(rows, next_id, news, mode, now, k)->Ok_0;
    let front = news.drop_last();
    let before = table_after(rows, next_id, front, mode, now);
    let after = table_after(rows, next_id, news, mode, now).0;
    let upto = table_after(rows, next_id, news.subrange(0, k), mode, now);
    lemma_returned_is_written(upto.0, upto.1, news[k], mode, now);
    if k == news.len() - 1 {
        assert(news.subrange(0, k) =~= front);
        lemma_position_of(before.0, news[k].key());
        match position_of(before.0, news[k].key()) {
            None => {
                assert(after[before.0.len() as int] == row);
            },
            Some(i) => {
                assert(after[i] == row);
            },
        }
    } else {
        assert(front.subrange(0, k) =~= news.subrange(0, k));
        assert(front[k] == news[k]);
        assert forall|j: int| k < j < front.len() implies (#[trigger] front[j]).key()
            != front[k].key() by {
            assert(front[j] == news[j]);
        }
        lemma_batch_last_write(rows, next_id, front, mode, now, k);
        let i = choose|i: int| 0 <= i < before.0.len() && before.0[i] == row;
        assert(news.last() == news[news.len() - 1]);
        lemma_insert_touches_one_row(before.0, before.1, news.last(), mode, now);
        assert(before.0[i].key() != news.last().key());
        assert(after[i] == row);
    }
}

/// The keys of the cells to be written, in their order.
pub open spec fn new_keys_of(news: Seq<UnsavedCell>) -> Seq<(i32, Seq<char>, Option<i32>)> {
    Seq::new(news.len(), |k: int| news[k].key())
}

/// A run of writes leaves a cell that it does not write as it is.
pub proof fn lemma_batch_spares_others(
    rows: Seq<Cell>,
    next_id: i32,
    news: Seq<UnsavedCell>,
    mode: CellMode,
    now: Timestamp,
    i: int,
)
    requires
        0 <= i < rows.len(),
        forall|k: int| 0 <= k < news.len() ==> (#[trigger] news[k]).key() != rows[i].key(),
    ensures
        i < table_after(rows, next_id, news, mode, now).0.len(),
        table_after(rows, next_id, news, mode, now).0[i] == rows[i],
    decreases news.len(),
{
    if news.len() > 0 {
        let front = news.drop_last();
        assert forall|k: int| 0 <= k < front.len() implies (#[trigger] front[k]).key()
            != rows[i].key() by {
            assert(front[k] == news[k]);
        }
        lemma_batch_spares_others(rows, next_id, front, mode, now, i);
        assert(news.last() == news[news.len() - 1]);
        lemma_position_of(table_after(rows, next_id, front, mode, now).0, news.last().key());
    }
}

/// Writing the same cells a second time changes nothing of any cell but
/// the moment of its last write. The rows of the two runs need only agree
/// in their keys, their places on the grid and their persistence.
pub proof fn lemma_batch_twice_keeps_rows(
    rows: Seq<Cell>,
    next_id: i32,
    once: Seq<UnsavedCell>,
    again: Seq<UnsavedCell>,
    mode: CellMode,
    first: Timestamp,
    second: Timestamp,
)
    requires
        all_written(rows, next_id, once, mode, first),
        once.len() == again.len(),
        forall|k: int|
            0 <= k < once.len() ==> {
                &&& (#[trigger] once[k]).key() == again[k].key()
                &&& once[k].x == again[k].x
                &&& once[k].y == again[k].y
                &&& once[k].is_persistent == again[k].is_persistent
            },
        keys_unique(table_after(rows, next_id, once, mode, first).0),
        ({
            let then = table_after(rows, next_id, once, mode, first);
            keys_unique(table_after(then.0, then.1, again, mode, second).0)
        }),
    ensures
        ({
            let then = table_after(rows, next_id, once, mode, first);
            let after = table_after(then.0, then.1, again, mode, second);
            &&& after.0.len() == then.0.len()
            &&& forall|i: int|
                0 <= i < then.0.len() ==> same_but_for_update(#[trigger] after.0[i], then.0[i])
        }),
{
    let then = table_after(rows, next_id, once, mode, first);
    let after = table_after(then.0, then.1, again, mode, second);
    lemma_batch_twice(rows, next_id, once, again, mode, first, second);
    lemma_batch_grows(then.0, then.1, again, mode, second, 0);
    assert(again.subrange(0, 0) =~= Seq::<UnsavedCell>::empty());
    assert forall|i: int| 0 <= i < then.0.len() implies same_but_for_update(
        #[trigger] after.0[i],
        then.0[i],
    ) by {
        let key = then.0[i].key();
        assert(is_later(then.0[i], after.0[i], mode, second));
        if exists|k: int| 0 <= k < again.len() && (#[trigger] again[k]).key() == key {
            let keys = new_keys_of(again);
            let some = choose|k: int| 0 <= k < again.len() && (#[trigger] again[k]).key() == key;
            assert(keys[some] == key);
            lemma_last_at(keys, key);
            let k = choose|k: int|
                0 <= k < keys.len() && #[trigger] keys[k] == key && forall|j: int|
                    k < j < keys.len() ==> #[trigger] keys[j] != key;
            assert forall|j: int| k < j < again.len() implies (#[trigger] again[j]).key()
                != again[k].key() by {
                assert(keys[j] != key);
            }
            assert forall|j: int| k < j < once.len() implies (#[trigger] once[j]).key()
                != once[k].key() by {
                assert(once[j].key() == again[j].key());
                assert(keys[j] != key);
            }
            assert(once[k].key() == again[k].key());
            assert(returned_at(rows, next_id, once, mode, first, k) is Ok);
            lemma_batch_last_write(rows, next_id, once, mode, first, k);
            let r1 = returned_at(rows, next_id, once, mode, first, k)->Ok_0;
            let a = choose|a: int| 0 <= a < then.0.len() && then.0[a] == r1;
            if a < i {
                assert(then.0[a].key() != then.0[i].key());
            } else if i < a {
                assert(then.0[i].key() != then.0[a].key());
            }
            assert(returned_at(then.0, then.1, again, mode, second, k) is Ok);
            lemma_batch_last_write(then.0, then.1, again, mode, second, k);
            let r2 = returned_at(then.0, then.1, again, mode, second, k)->Ok_0;
            let b = choose|b: int| 0 <= b < after.0.len() && after.0[b] == r2;
            if b < i {
                assert(after.0[b].key() != after.0[i].key());
            } else if i < b {
                assert(after.0[i].key() != after.0[b].key());
            }
        } else {
            lemma_batch_spares_others(then.0, then.1, again, mode, second, i);
        }
    }
}

/// A run of writes of cells of which none is stored and no two are the
/// same adds one row for each, in their order and under the ids that
/// follow one another from the next, and leaves every other row as it is.
pub proof fn lemma_batch_of_new(
    rows: Seq<Cell>,
    next_id: i32,
    news: Seq<UnsavedCell>,
    mode: CellMode,
    now: Timestamp,
)
    requires
        all_written(rows, next_id, news, mode, now),
        forall|k: int| 0 <= k < news.len() ==> position_of(rows, (#[trigger] news[k]).key()) is None,
        forall|j: int, k: int|
            0 <= j < k < news.len() ==> (#[trigger] news[j]).key() != (#[trigger] news[k]).key(),
    ensures
        ({
            let after = table_after(rows, next_id, news, mode, now);
            &&& after.0.len() == rows.len() + news.len()
            &&& after.1 == next_id + news.len()
            &&& forall|i: int| 0 <= i < rows.len() ==> #[trigger] after.0[i] == rows[i]
            &&& forall|k: int|
                0 <= k < news.len() ==> #[trigger] after.0[rows.len() + k] == created(
                    news[k],
                    (next_id + k) as i32,
                    mode, now,
                )
            &&& forall|k: int|
                0 <= k < news.len() ==> #[trigger] returned_at(rows, next_id, news, mode, now, k)
                    == Ok::<Cell, StoreError>(created(news[k], (next_id + k) as i32, mode, now))
        }),
    decreases news.len(),
{
    if news.len() > 0 {
        let front = news.drop_last();
        let last = news.len() - 1;
        lemma_run_of_new(rows, next_id, news, mode, now, last);
        lemma_batch_of_new(rows, next_id, front, mode, now);
        let before = table_after(rows, next_id, front, mode, now);
        assert(news.subrange(0, last) =~= front);
        lemma_none_of_new(rows, next_id, news, mode, now, last);
        assert(returned_at(rows, next_id, news, mode, now, last) is Ok);
        let after = table_after(rows, next_id, news, mode, now);
        assert(after.0 == before.0.push(created(news[last], before.1, mode, now)));
        assert forall|k: int| 0 <= k < news.len() implies #[trigger] after.0[rows.len() + k]
            == created(news[k], (next_id + k) as i32, mode, now) by {
            if k < last {
                assert(before.0[rows.len() + k] == created(front[k], (next_id + k) as i32, mode, now));
            }
        }
        assert forall|k: int| 0 <= k < news.len() implies #[trigger] returned_at(
            rows,
            next_id,
            news,
            mode, now,
            k,
        ) == Ok::<Cell, StoreError>(created(news[k], (next_id + k) as i32, mode, now)) by {
            let upto = news.subrange(0, k);
            lemma_run_of_new(rows, next_id, news, mode, now, k);
            lemma_batch_of_new(rows, next_id, upto, mode, now);
            lemma_none_of_new(rows, next_id, news, mode, now, k);
            assert(returned_at(rows, next_id, news, mode, now, k) is Ok);
        }
    }
}

/// The first writes of a run of new cells are such a run themselves.
proof fn lemma_run_of_new(
    rows: Seq<Cell>,
    next_id: i32,
    news: Seq<UnsavedCell>,
    mode: CellMode,
    now: Timestamp,
    n: int,
)
    requires
        0 <= n <= news.len(),
        all_written(rows, next_id, news, mode, now),
        forall|k: int| 0 <= k < news.len() ==> position_of(rows, (#[trigger] news[k]).key()) is None,
        forall|j: int, k: int|
            0 <= j < k < news.len() ==> (#[trigger] news[j]).key() != (#[trigger] news[k]).key(),
    ensures
        ({
            let upto = news.subrange(0, n);
            &&& all_written(rows, next_id, upto, mode, now)
            &&& forall|k: int|
                0 <= k < upto.len() ==> position_of(rows, (#[trigger] upto[k]).key()) is None
            &&& forall|j: int, k: int|
                0 <= j < k < upto.len() ==> (#[trigger] upto[j]).key() != (#[trigger] upto[k]).key()
        }),
{
    let upto = news.subrange(0, n);
    assert forall|k: int| 0 <= k < upto.len() implies (#[trigger] returned_at(
        rows,
        next_id,
        upto,
        mode, now,
        k,
    )) is Ok by {
        assert(upto.subrange(0, k) =~= news.subrange(0, k));
        assert(upto[k] == news[k]);
        assert(returned_at(rows, next_id, news, mode, now, k) is Ok);
    }
    assert forall|k: int| 0 <= k < upto.len() implies position_of(
        rows,
        (#[trigger] upto[k]).key(),
    ) is None by {
        assert(upto[k] == news[k]);
    }
    assert forall|j: int, k: int| 0 <= j < k < upto.len() implies (#[trigger] upto[j]).key() != (
    #[trigger] upto[k]).key() by {
        assert(upto[j] == news[j] && upto[k] == news[k]);
    }
}

/// What write number `n` of a run of new cells writes is not stored
/// when it is written.
proof fn lemma_none_of_new(
    rows: Seq<Cell>,
    next_id: i32,
    news: Seq<UnsavedCell>,
    mode: CellMode,
    now: Timestamp,
    n: int,
)
    requires
        0 <= n < news.len(),
        position_of(rows, news[n].key()) is None,
        forall|j: int| 0 <= j < n ==> (#[trigger] news[j]).key() != news[n].key(),
        ({
            let before = table_after(rows, next_id, news.subrange(0, n), mode, now);
            &&& before.0.len() == rows.len() + n
            &&& forall|i: int| 0 <= i < rows.len() ==> #[trigger] before.0[i] == rows[i]
            &&& forall|k: int|
                0 <= k < n ==> #[trigger] before.0[rows.len() + k] == created(
                    news.subrange(0, n)[k],
                    (next_id + k) as i32,
                    mode, now,
                )
        }),
    ensures
        position_of(table_after(rows, next_id, news.subrange(0, n), mode, now).0, news[n].key())
            is None,
{
    let before = table_after(rows, next_id, news.subrange(0, n), mode, now);
    let key = news[n].key();
    lemma_position_of(rows, key);
    lemma_position_of(before.0, key);
    if let Some(i) = position_of(before.0, key) {
        if i < rows.len() {
            assert(before.0[i] == rows[i]);
        } else {
            let k = i - rows.len();
            assert(before.0[rows.len() + k] == created(
                news.subrange(0, n)[k],
                (next_id + k) as i32,
                mode, now,
            ));
            assert(news.subrange(0, n)[k] == news[k]);
        }
    }
}

/// Whether no two of the rows share a key.
pub open spec fn rows_differ(news: Seq<UnsavedCell>) -> bool {
    forall|j: int, k: int|
        0 <= j < k < news.len() ==> (#[trigger] news[j]).key() != (#[trigger] news[k]).key()
}

/// Tells whether no two of the cells to be written are the same, so
/// that they can be written by one statement: a statement writes no row
/// twice.
pub fn keys_differ(news: &[UnsavedCell]) -> (r: bool)
    ensures
        r == rows_differ(news@),
{
    let mut k: usize = 0;
    while k < news.len()
        invariant
            k <= news.len(),
            forall|a: int, b: int|
                0 <= a < b < k ==> (#[trigger] news@[a]).key() != (#[trigger] news@[b]).key(),
        decreases news.len() - k,
    {
        let mut j: usize = 0;
        while j < k
            invariant
                j <= k,
                k < news.len(),
                forall|a: int| 0 <= a < j ==> (#[trigger] news@[a]).key() != news@[k as int].key(),
            decreases k - j,
        {
            if news[j].form_id == news[k].form_id && news[j].world_id == news[k].world_id && str_eq(
                news[j].master.as_str(),
                news[k].master.as_str(),
            ) {
                return false;
            }
            j += 1;
        }
        k += 1;
    }
    true
}

} // verus!

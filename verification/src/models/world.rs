//! Worldspaces: the containers of exterior cells.

use vstd::prelude::*;
use crate::models::{first_at, lemma_first_at};
use crate::models::cell::StoreError;
use crate::text::str_eq;
use crate::time::Timestamp;

verus! {

/// A stored worldspace. No two stored worldspaces share form id and
/// master.
#[derive(Debug, Clone, PartialEq)]
pub struct World {
    pub id: i32,
    pub form_id: i32,
    pub master: String,
    pub updated_at: Timestamp,
    pub created_at: Timestamp,
}

/// A worldspace to be written.
#[derive(Debug, Clone, PartialEq)]
pub struct UnsavedWorld {
    pub form_id: i32,
    pub master: String,
}

impl World {
    /// What identifies a worldspace: its form id and the name of its
    /// master.
    pub open spec fn key(self) -> (i32, Seq<char>) {
        (self.form_id, self.master@)
    }

    /// A copy of the row.
    pub fn duplicate(&self) -> (r: World)
        ensures
            r == *self,
    {
        World {
            id: self.id,
            form_id: self.form_id,
            master: self.master.clone(),
            updated_at: self.updated_at,
            created_at: self.created_at,
        }
    }
}

impl UnsavedWorld {
    /// What identifies the worldspace.
    pub open spec fn key(self) -> (i32, Seq<char>) {
        (self.form_id, self.master@)
    }
}

/// The table of worldspaces: its rows in the order in which they were
/// first written, and the id that the next new row gets.
#[derive(Debug, Clone, PartialEq)]
pub struct WorldTable {
    pub rows: Vec<World>,
    pub next_id: i32,
}

/// The keys of the rows, in the order of the rows.
pub open spec fn keys_of(rows: Seq<World>) -> Seq<(i32, Seq<char>)> {
    Seq::new(rows.len(), |i: int| rows[i].key())
}

/// The position of the first row with the given key.
pub open spec fn position_of(rows: Seq<World>, key: (i32, Seq<char>)) -> Option<int> {
    first_at(keys_of(rows), key)
}

/// No two rows share a key.
pub open spec fn keys_unique(rows: Seq<World>) -> bool {
    forall|i: int, j: int|
        0 <= i < j < rows.len() ==> (#[trigger] rows[i]).key() != (#[trigger] rows[j]).key()
}

/// No two rows share an id, and every id is below the next to be handed
/// out.
pub open spec fn ids_issued(rows: Seq<World>, next_id: int) -> bool {
    &&& forall|i: int| 0 <= i < rows.len() ==> (#[trigger] rows[i]).id < next_id
    &&& forall|i: int, j: int|
        0 <= i < j < rows.len() ==> (#[trigger] rows[i]).id != (#[trigger] rows[j]).id
}

/// The row that a write adds for a worldspace that is not yet there.
pub open spec fn created(new: UnsavedWorld, id: i32, now: Timestamp) -> World {
    World { id, form_id: new.form_id, master: new.master, updated_at: now, created_at: now }
}

/// The row that a write leaves of a worldspace that is already there:
/// only the moment is recorded.
pub open spec fn overwritten(old: World, now: Timestamp) -> World {
    World { updated_at: now, ..old }
}

/// The rows after a write.
pub open spec fn rows_after(rows: Seq<World>, next_id: i32, new: UnsavedWorld, now: Timestamp)
    -> Seq<World> {
    match position_of(rows, new.key()) {
        None => if next_id == i32::MAX {
            rows
        } else {
            rows.push(created(new, next_id, now))
        },
        Some(i) => rows.update(i, overwritten(rows[i], now)),
    }
}

/// The id that the next new row gets after a write.
pub open spec fn next_id_after(rows: Seq<World>, next_id: i32, new: UnsavedWorld) -> i32 {
    if position_of(rows, new.key()) is None && next_id < i32::MAX {
        (next_id + 1) as i32
    } else {
        next_id
    }
}

/// The row that a write hands back, or an error where the worldspace is
/// new and no id is left.
pub open spec fn row_returned(rows: Seq<World>, next_id: i32, new: UnsavedWorld, now: Timestamp)
    -> Result<World, StoreError> {
    match position_of(rows, new.key()) {
        None => if next_id == i32::MAX {
            Err(StoreError::IdsExhausted)
        } else {
            Ok(created(new, next_id, now))
        },
        Some(i) => Ok(overwritten(rows[i], now)),
    }
}

/// The table after a run of writes, one after the other in the order
/// given.
pub open spec fn table_after(rows: Seq<World>, next_id: i32, news: Seq<UnsavedWorld>, now: Timestamp)
    -> (Seq<World>, i32)
    decreases news.len(),
{
    if news.len() == 0 {
        (rows, next_id)
    } else {
        let before = table_after(rows, next_id, news.drop_last(), now);
        (
            rows_after(before.0, before.1, news.last(), now),
            next_id_after(before.0, before.1, news.last()),
        )
    }
}

/// The row that write number `k` of a run hands back.
pub open spec fn returned_at(
    rows: Seq<World>,
    next_id: i32,
    news: Seq<UnsavedWorld>,
    now: Timestamp,
    k: int,
) -> Result<World, StoreError> {
    let before = table_after(rows, next_id, news.subrange(0, k), now);
    row_returned(before.0, before.1, news[k], now)
}

/// The rows that a run of writes hands back, one for each write and in
/// their order, where every write succeeds.
pub open spec fn returned_rows(
    rows: Seq<World>,
    next_id: i32,
    news: Seq<UnsavedWorld>,
    now: Timestamp,
) -> Seq<World> {
    Seq::new(news.len(), |k: int| returned_at(rows, next_id, news, now, k)->Ok_0)
}

/// Whether write number `k` of a run hands back exactly this row.
pub open spec fn returns_row(
    rows: Seq<World>,
    next_id: i32,
    news: Seq<UnsavedWorld>,
    now: Timestamp,
    k: int,
    row: World,
) -> bool {
    returned_at(rows, next_id, news, now, k) == Ok::<World, StoreError>(row)
}

/// A key that is found is found at a row that has it, and at no earlier
/// row; a key that is not found is the key of no row.
pub proof fn lemma_position_of(rows: Seq<World>, key: (i32, Seq<char>))
    ensures
        match position_of(rows, key) {
            Some(i) => 0 <= i < rows.len() && rows[i].key() == key && forall|j: int|
                0 <= j < i ==> (#[trigger] rows[j]).key() != key,
            None => forall|j: int| 0 <= j < rows.len() ==> (#[trigger] rows[j]).key() != key,
        },
{
    let keys = keys_of(rows);
    lemma_first_at(keys, key);
    assert forall|j: int| 0 <= j < rows.len() implies keys[j] == (#[trigger] rows[j]).key() by {}
}

impl WorldTable {
    /// A table without rows.
    pub fn new() -> (r: WorldTable)
        ensures
            r.rows@.len() == 0,
            r.next_id == 1,
            r.well_formed(),
    {
        WorldTable { rows: Vec::new(), next_id: 1 }
    }

    /// No two rows share a key or an id, and the ids are below the next.
    pub open spec fn well_formed(self) -> bool {
        keys_unique(self.rows@) && ids_issued(self.rows@, self.next_id as int)
    }

    /// The position of the row with the key of `new`.
    fn find(&self, new: &UnsavedWorld) -> (r: Option<usize>)
        ensures
            match r {
                Some(i) => position_of(self.rows@, new.key()) == Some(i as int) && i
                    < self.rows@.len(),
                None => position_of(self.rows@, new.key()) is None,
            },
    {
        let mut i: usize = 0;
        while i < self.rows.len()
            invariant
                i <= self.rows.len(),
                forall|j: int| 0 <= j < i ==> (#[trigger] self.rows@[j]).key() != new.key(),
            decreases self.rows.len() - i,
        {
            if self.rows[i].form_id == new.form_id && str_eq(
                self.rows[i].master.as_str(),
                new.master.as_str(),
            ) {
                proof {
                    lemma_position_of(self.rows@, new.key());
                }
                return Some(i);
            }
            i += 1;
        }
        proof {
            lemma_position_of(self.rows@, new.key());
        }
        None
    }
}

/// Writes one worldspace: the statement that inserts a worldspace or,
/// where one of its key is there, records the moment on it. Hands back the
/// row as it stands afterwards.
pub fn insert(table: &mut WorldTable, new: &UnsavedWorld, now: Timestamp) -> (r: Result<
    World,
    StoreError,
>)
    ensures
        final(table).rows@ == rows_after(old(table).rows@, old(table).next_id, *new, now),
        final(table).next_id == next_id_after(old(table).rows@, old(table).next_id, *new),
        r == row_returned(old(table).rows@, old(table).next_id, *new, now),
{
    match table.find(new) {
        None => {
            if table.next_id == i32::MAX {
                return Err(StoreError::IdsExhausted);
            }
            let row = World {
                id: table.next_id,
                form_id: new.form_id,
                master: new.master.clone(),
                updated_at: now,
                created_at: now,
            };
            let copy = row.duplicate();
            table.rows.push(row);
            table.next_id = table.next_id + 1;
            Ok(copy)
        },
        Some(i) => {
            let old_row = table.rows[i].duplicate();
            let row = World {
                id: old_row.id,
                form_id: old_row.form_id,
                master: old_row.master,
                updated_at: now,
                created_at: old_row.created_at,
            };
            let copy = row.duplicate();
            table.rows.set(i, row);
            Ok(copy)
        },
    }
}

/// Writes worldspaces one after the other, in the order given, and hands
/// back their rows in that order, one for each worldspace written. The
/// run ends at the first that cannot be written; what was written before
/// it stays written.
pub fn batched_insert(table: &mut WorldTable, news: &Vec<UnsavedWorld>, now: Timestamp) -> (r:
    Result<Vec<World>, StoreError>)
    ensures
        match r {
            Ok(written) => {
                &&& written@.len() == news@.len()
                &&& (final(table).rows@, final(table).next_id) == table_after(
                    old(table).rows@,
                    old(table).next_id,
                    news@,
                    now,
                )
                &&& forall|k: int|
                    0 <= k < news@.len() ==> returns_row(
                        old(table).rows@,
                        old(table).next_id,
                        news@,
                        now,
                        k,
                        #[trigger] written@[k],
                    )
            },
            Err(e) => e == StoreError::IdsExhausted && exists|k: int|
                {
                    &&& 0 <= k < news@.len()
                    &&& (final(table).rows@, final(table).next_id) == #[trigger] table_after(
                        old(table).rows@,
                        old(table).next_id,
                        news@.subrange(0, k),
                        now,
                    )
                    &&& returned_at(old(table).rows@, old(table).next_id, news@, now, k) is Err
                },
        },
{
    let mut written: Vec<World> = Vec::new();
    let mut i: usize = 0;
    while i < news.len()
        invariant
            i <= news.len(),
            written@.len() == i,
            (table.rows@, table.next_id) == table_after(
                old(table).rows@,
                old(table).next_id,
                news@.subrange(0, i as int),
                now,
            ),
            forall|k: int|
                0 <= k < i ==> returns_row(
                    old(table).rows@,
                    old(table).next_id,
                    news@,
                    now,
                    k,
                    #[trigger] written@[k],
                ),
        decreases news.len() - i,
    {
        let ghost longer = news@.subrange(0, i + 1);
        assert(longer.drop_last() =~= news@.subrange(0, i as int));
        assert(longer.last() == news@[i as int]);
        match insert(table, &news[i], now) {
            Ok(row) => {
                written.push(row);
            },
            Err(e) => {
                return Err(e);
            },
        }
        i += 1;
    }
    assert(news@.subrange(0, news.len() as int) =~= news@);
    Ok(written)
}

/// The first row with a key is where the key is found.
pub proof fn lemma_position_is(rows: Seq<World>, key: (i32, Seq<char>), i: int)
    requires
        0 <= i < rows.len(),
        rows[i].key() == key,
        forall|j: int| 0 <= j < i ==> (#[trigger] rows[j]).key() != key,
    ensures
        position_of(rows, key) == Some(i),
{
    lemma_position_of(rows, key);
}

/// Writing the same worldspace a second time adds no row: the table holds
/// as many rows as after the first write, the second write hands back the
/// row of the first under the same id, with the moment of the second write
/// on it, and every other row is as it was.
pub proof fn lemma_insert_twice(
    rows: Seq<World>,
    next_id: i32,
    new: UnsavedWorld,
    first: Timestamp,
    second: Timestamp,
)
    ensures
        ({
            let once = rows_after(rows, next_id, new, first);
            let id_once = next_id_after(rows, next_id, new);
            let twice = rows_after(once, id_once, new, second);
            let handed_once = row_returned(rows, next_id, new, first);
            let handed_twice = row_returned(once, id_once, new, second);
            &&& twice.len() == once.len()
            &&& next_id_after(once, id_once, new) == id_once
            &&& forall|i: int|
                0 <= i < once.len() ==> #[trigger] twice[i] == (World {
                    updated_at: twice[i].updated_at,
                    ..once[i]
                })
            &&& forall|i: int|
                0 <= i < once.len() && (#[trigger] once[i]).key() != new.key() ==> twice[i]
                    == once[i]
            &&& handed_once matches Ok(a) ==> handed_twice == Ok::<World, StoreError>(
                World { updated_at: second, ..a },
            )
            &&& handed_once is Err ==> handed_twice == handed_once && twice == rows
        }),
{
    lemma_position_of(rows, new.key());
    let once = rows_after(rows, next_id, new, first);
    match position_of(rows, new.key()) {
        None => {
            if next_id < i32::MAX {
                assert forall|j: int| 0 <= j < rows.len() implies (#[trigger] once[j]).key()
                    != new.key() by {
                    assert(once[j] == rows[j]);
                }
                lemma_position_is(once, new.key(), rows.len() as int);
            }
        },
        Some(i) => {
            assert forall|j: int| 0 <= j < i implies (#[trigger] once[j]).key() != new.key() by {
                assert(once[j] == rows[j]);
            }
            lemma_position_is(once, new.key(), i);
        },
    }
}

/// A write keeps a table well formed: a worldspace is stored once,
/// however often it is written.
pub proof fn lemma_insert_keeps_well_formed(
    rows: Seq<World>,
    next_id: i32,
    new: UnsavedWorld,
    now: Timestamp,
)
    requires
        keys_unique(rows),
        ids_issued(rows, next_id as int),
    ensures
        keys_unique(rows_after(rows, next_id, new, now)),
        ids_issued(rows_after(rows, next_id, new, now), next_id_after(rows, next_id, new) as int),
{
    lemma_position_of(rows, new.key());
    let after = rows_after(rows, next_id, new, now);
    assert forall|i: int, j: int| 0 <= i < j < after.len() implies (#[trigger] after[i]).key() != (
    #[trigger] after[j]).key() by {
        if i < rows.len() {
            assert(after[i].key() == rows[i].key());
        }
        if j < rows.len() {
            assert(after[j].key() == rows[j].key());
        }
    }
    assert forall|i: int, j: int| 0 <= i < j < after.len() implies (#[trigger] after[i]).id != (
    #[trigger] after[j]).id by {
        if i < rows.len() {
            assert(after[i].id == rows[i].id);
        }
        if j < rows.len() {
            assert(after[j].id == rows[j].id);
        }
    }
    assert forall|i: int| 0 <= i < after.len() implies (#[trigger] after[i]).id < next_id_after(
        rows,
        next_id,
        new,
    ) by {
        if i < rows.len() {
            assert(after[i].id == rows[i].id);
        }
    }
}

/// A run of writes keeps a table well formed, loses no row and changes
/// the id of none.
pub proof fn lemma_batch_keeps_well_formed(
    rows: Seq<World>,
    next_id: i32,
    news: Seq<UnsavedWorld>,
    now: Timestamp,
)
    requires
        keys_unique(rows),
        ids_issued(rows, next_id as int),
    ensures
        keys_unique(table_after(rows, next_id, news, now).0),
        ids_issued(
            table_after(rows, next_id, news, now).0,
            table_after(rows, next_id, news, now).1 as int,
        ),
        table_after(rows, next_id, news, now).0.len() >= rows.len(),
        forall|i: int|
            0 <= i < rows.len() ==> (#[trigger] table_after(rows, next_id, news, now).0[i]).id
                == rows[i].id,
    decreases news.len(),
{
    if news.len() > 0 {
        lemma_batch_keeps_well_formed(rows, next_id, news.drop_last(), now);
        let before = table_after(rows, next_id, news.drop_last(), now);
        lemma_insert_keeps_well_formed(before.0, before.1, news.last(), now);
        lemma_position_of(before.0, news.last().key());
        let after = table_after(rows, next_id, news, now).0;
        assert forall|i: int| 0 <= i < rows.len() implies (#[trigger] after[i]).id == rows[i].id by {
            assert(before.0[i].id == rows[i].id);
        }
    }
}

/// Whether a worldspace is stored under the given id and key.
pub open spec fn row_stored(rows: Seq<World>, id: i32, key: (i32, Seq<char>)) -> bool {
    exists|i: int| 0 <= i < rows.len() && (#[trigger] rows[i]).id == id && rows[i].key() == key
}

/// The row that a write hands back is stored under the key that was
/// written.
pub proof fn lemma_returned_is_stored(
    rows: Seq<World>,
    next_id: i32,
    new: UnsavedWorld,
    now: Timestamp,
)
    ensures
        row_returned(rows, next_id, new, now) matches Ok(row) ==> row.key() == new.key()
            && row_stored(rows_after(rows, next_id, new, now), row.id, new.key()),
{
    lemma_position_of(rows, new.key());
    let after = rows_after(rows, next_id, new, now);
    match position_of(rows, new.key()) {
        None => {
            if next_id < i32::MAX {
                assert(after[rows.len() as int] == created(new, next_id, now));
            }
        },
        Some(i) => {
            assert(after[i] == overwritten(rows[i], now));
        },
    }
}

/// The next id never falls, and rises by no more than the rows written.
pub proof fn lemma_next_id_bounds(
    rows: Seq<World>,
    next_id: i32,
    news: Seq<UnsavedWorld>,
    now: Timestamp,
)
    ensures
        next_id <= table_after(rows, next_id, news, now).1 <= next_id + news.len(),
    decreases news.len(),
{
    if news.len() > 0 {
        lemma_next_id_bounds(rows, next_id, news.drop_last(), now);
    }
}

/// Whether `later` is what writes at `now` leave of the row `then`:
/// nothing of a worldspace changes but the moment of its last write, which
/// is as it was or `now`.
pub open spec fn is_later(then: World, later: World, now: Timestamp) -> bool {
    &&& later == (World { updated_at: later.updated_at, ..then })
    &&& later.updated_at == then.updated_at || later.updated_at == now
}

/// A longer run of writes keeps what a shorter run of the same writes has
/// stored: no row is lost, and every row is what later writes leave of it.
pub proof fn lemma_batch_grows(
    rows: Seq<World>,
    next_id: i32,
    news: Seq<UnsavedWorld>,
    now: Timestamp,
    k: int,
)
    requires
        0 <= k <= news.len(),
    ensures
        ({
            let shorter = table_after(rows, next_id, news.subrange(0, k), now).0;
            let longer = table_after(rows, next_id, news, now).0;
            &&& longer.len() >= shorter.len()
            &&& forall|i: int|
                0 <= i < shorter.len() ==> is_later(shorter[i], #[trigger] longer[i], now)
        }),
    decreases news.len() - k,
{
    if k == news.len() {
        assert(news.subrange(0, k) =~= news);
    } else {
        let front = news.drop_last();
        assert(front.subrange(0, k) =~= news.subrange(0, k));
        lemma_batch_grows(rows, next_id, front, now, k);
        let before = table_after(rows, next_id, front, now);
        lemma_position_of(before.0, news.last().key());
        let shorter = table_after(rows, next_id, news.subrange(0, k), now).0;
        let longer = table_after(rows, next_id, news, now).0;
        assert(longer.len() >= before.0.len());
        assert forall|i: int| 0 <= i < shorter.len() implies is_later(shorter[i], #[trigger] longer[i], now) by {
            assert(is_later(shorter[i], before.0[i], now));
            assert(is_later(before.0[i], longer[i], now));
        }
    }
}

/// Every row that a run of writes hands back is stored at the end of the
/// run, under the key that was written.
pub proof fn lemma_batch_rows_stored(
    rows: Seq<World>,
    next_id: i32,
    news: Seq<UnsavedWorld>,
    now: Timestamp,
    k: int,
)
    requires
        0 <= k < news.len(),
    ensures
        returned_at(rows, next_id, news, now, k) matches Ok(row) ==> row.key() == news[k].key()
            && row_stored(table_after(rows, next_id, news, now).0, row.id, news[k].key()),
{
    let before = table_after(rows, next_id, news.subrange(0, k), now);
    lemma_returned_is_stored(before.0, before.1, news[k], now);
    let upto = news.subrange(0, k + 1);
    assert(upto.drop_last() =~= news.subrange(0, k));
    assert(upto.last() == news[k]);
    let then = table_after(rows, next_id, upto, now).0;
    assert(then == rows_after(before.0, before.1, news[k], now));
    lemma_batch_grows(rows, next_id, news, now, k + 1);
    let end = table_after(rows, next_id, news, now).0;
    if let Ok(row) = returned_at(rows, next_id, news, now, k) {
        let i = choose|i: int|
            0 <= i < then.len() && (#[trigger] then[i]).id == row.id && then[i].key()
                == news[k].key();
        assert(end[i].id == row.id && end[i].key() == news[k].key());
    }
}

/// A run of writes for which ids are left succeeds at every write.
pub proof fn lemma_batch_has_room(
    rows: Seq<World>,
    next_id: i32,
    news: Seq<UnsavedWorld>,
    now: Timestamp,
    k: int,
)
    requires
        0 <= k < news.len(),
        next_id + news.len() <= i32::MAX,
    ensures
        returned_at(rows, next_id, news, now, k) is Ok,
{
    lemma_next_id_bounds(rows, next_id, news.subrange(0, k), now);
}

/// Whether every write of a run succeeds.
pub open spec fn all_written(rows: Seq<World>, next_id: i32, news: Seq<UnsavedWorld>, now: Timestamp)
    -> bool {
    forall|k: int| 0 <= k < news.len() ==> (#[trigger] returned_at(rows, next_id, news, now, k)) is Ok
}

/// A run of writes of worldspaces that are all stored adds no row and
/// uses no id, and every write hands back the stored row of its
/// worldspace, under the id that the row had.
pub proof fn lemma_batch_of_stored(
    rows: Seq<World>,
    next_id: i32,
    news: Seq<UnsavedWorld>,
    now: Timestamp,
)
    requires
        forall|k: int| 0 <= k < news.len() ==> position_of(rows, (#[trigger] news[k]).key()) is Some,
    ensures
        table_after(rows, next_id, news, now).0.len() == rows.len(),
        table_after(rows, next_id, news, now).1 == next_id,
        forall|k: int|
            0 <= k < news.len() ==> (#[trigger] returned_at(rows, next_id, news, now, k)) is Ok
                && returned_at(rows, next_id, news, now, k)->Ok_0.id == rows[position_of(
                rows,
                news[k].key(),
            )->0].id,
    decreases news.len(),
{
    if news.len() > 0 {
        let front = news.drop_last();
        assert forall|k: int| 0 <= k < front.len() implies position_of(
            rows,
            (#[trigger] front[k]).key(),
        ) is Some by {
            assert(front[k] == news[k]);
        }
        lemma_batch_of_stored(rows, next_id, front, now);
        lemma_same_keys_same_position(rows, next_id, front, now, news.last().key());
        assert(news.last() == news[news.len() - 1]);
        lemma_position_of(rows, news.last().key());
        assert forall|k: int| 0 <= k < news.len() implies (#[trigger] returned_at(
            rows,
            next_id,
            news,
            now,
            k,
        )) is Ok && returned_at(rows, next_id, news, now, k)->Ok_0.id == rows[position_of(
            rows,
            news[k].key(),
        )->0].id by {
            let upto = news.subrange(0, k);
            assert forall|j: int| 0 <= j < upto.len() implies position_of(
                rows,
                (#[trigger] upto[j]).key(),
            ) is Some by {
                assert(upto[j] == news[j]);
            }
            lemma_batch_of_stored(rows, next_id, upto, now);
            lemma_same_keys_same_position(rows, next_id, upto, now, news[k].key());
            lemma_batch_grows(rows, next_id, upto, now, 0);
            lemma_position_of(rows, news[k].key());
        }
    }
}

/// A key is found after a run of writes that added no row where it was
/// found before the run.
proof fn lemma_same_keys_same_position(
    rows: Seq<World>,
    next_id: i32,
    news: Seq<UnsavedWorld>,
    now: Timestamp,
    key: (i32, Seq<char>),
)
    requires
        table_after(rows, next_id, news, now).0.len() == rows.len(),
    ensures
        position_of(table_after(rows, next_id, news, now).0, key) == position_of(rows, key),
{
    let after = table_after(rows, next_id, news, now).0;
    lemma_batch_grows(rows, next_id, news, now, 0);
    assert(news.subrange(0, 0) =~= Seq::<UnsavedWorld>::empty());
    lemma_position_of(rows, key);
    lemma_position_of(after, key);
    match position_of(rows, key) {
        Some(i) => {
            assert forall|j: int| 0 <= j < i implies (#[trigger] after[j]).key() != key by {
                assert(after[j].key() == rows[j].key());
            }
            assert(after[i].key() == rows[i].key());
            lemma_position_is(after, key, i);
        },
        None => {
            if let Some(i) = position_of(after, key) {
                assert(after[i].key() == rows[i].key());
            }
        },
    }
}

/// Writing the same worldspaces a second time adds no row and uses no id, and
/// every write of the second run hands back a row with the id and the key
/// of the row that the same write of the first run handed back. The rows
/// of the two runs need only agree in their keys.
pub proof fn lemma_batch_twice(
    rows: Seq<World>,
    next_id: i32,
    once: Seq<UnsavedWorld>,
    again: Seq<UnsavedWorld>,
    first: Timestamp,
    second: Timestamp,
)
    requires
        keys_unique(table_after(rows, next_id, once, first).0),
        all_written(rows, next_id, once, first),
        once.len() == again.len(),
        forall|k: int| 0 <= k < once.len() ==> (#[trigger] once[k]).key() == again[k].key(),
    ensures
        ({
            let then = table_after(rows, next_id, once, first);
            let after = table_after(then.0, then.1, again, second);
            &&& after.0.len() == then.0.len()
            &&& after.1 == then.1
            &&& all_written(then.0, then.1, again, second)
            &&& forall|k: int|
                0 <= k < once.len() ==> {
                    let a = (#[trigger] returned_at(rows, next_id, once, first, k))->Ok_0;
                    let b = returned_at(then.0, then.1, again, second, k)->Ok_0;
                    b.id == a.id && b.key() == a.key()
                }
        }),
{
    let then = table_after(rows, next_id, once, first);
    assert forall|k: int| 0 <= k < again.len() implies position_of(
        then.0,
        (#[trigger] again[k]).key(),
    ) is Some by {
        assert(once[k].key() == again[k].key());
        assert(returned_at(rows, next_id, once, first, k) is Ok);
        lemma_batch_rows_stored(rows, next_id, once, first, k);
        lemma_position_of(then.0, again[k].key());
    }
    lemma_batch_of_stored(then.0, then.1, again, second);
    assert forall|k: int| 0 <= k < once.len() implies {
        let a = (#[trigger] returned_at(rows, next_id, once, first, k))->Ok_0;
        let b = returned_at(then.0, then.1, again, second, k)->Ok_0;
        b.id == a.id && b.key() == a.key()
    } by {
        let a = returned_at(rows, next_id, once, first, k)->Ok_0;
        let b = returned_at(then.0, then.1, again, second, k)->Ok_0;
        assert(once[k].key() == again[k].key());
        assert(returned_at(rows, next_id, once, first, k) is Ok);
        assert(returned_at(then.0, then.1, again, second, k) is Ok);
        lemma_batch_rows_stored(rows, next_id, once, first, k);
        lemma_batch_rows_stored(then.0, then.1, again, second, k);
        lemma_position_of(then.0, again[k].key());
        let i = position_of(then.0, again[k].key())->0;
        let j = choose|j: int|
            0 <= j < then.0.len() && (#[trigger] then.0[j]).id == a.id && then.0[j].key()
                == once[k].key();
        if i < j {
            assert(then.0[i].key() != then.0[j].key());
        } else if j < i {
            assert(then.0[j].key() != then.0[i].key());
        }
    }
}

/// A run of writes of worldspaces of which none is stored and no two are the
/// same adds one row for each, in their order and under the ids that
/// follow one another from the next, and leaves every other row as it is.
pub proof fn lemma_batch_of_new(
    rows: Seq<World>,
    next_id: i32,
    news: Seq<UnsavedWorld>,
    now: Timestamp,
)
    requires
        all_written(rows, next_id, news, now),
        forall|k: int| 0 <= k < news.len() ==> position_of(rows, (#[trigger] news[k]).key()) is None,
        forall|j: int, k: int|
            0 <= j < k < news.len() ==> (#[trigger] news[j]).key() != (#[trigger] news[k]).key(),
    ensures
        ({
            let after = table_after(rows, next_id, news, now);
            &&& after.0.len() == rows.len() + news.len()
            &&& after.1 == next_id + news.len()
            &&& forall|i: int| 0 <= i < rows.len() ==> #[trigger] after.0[i] == rows[i]
            &&& forall|k: int|
                0 <= k < news.len() ==> #[trigger] after.0[rows.len() + k] == created(
                    news[k],
                    (next_id + k) as i32,
                    now,
                )
            &&& forall|k: int|
                0 <= k < news.len() ==> #[trigger] returned_at(rows, next_id, news, now, k)
                    == Ok::<World, StoreError>(created(news[k], (next_id + k) as i32, now))
        }),
    decreases news.len(),
{
    if news.len() > 0 {
        let front = news.drop_last();
        let last = news.len() - 1;
        lemma_run_of_new(rows, next_id, news, now, last);
        lemma_batch_of_new(rows, next_id, front, now);
        let before = table_after(rows, next_id, front, now);
        assert(news.subrange(0, last) =~= front);
        lemma_none_of_new(rows, next_id, news, now, last);
        assert(returned_at(rows, next_id, news, now, last) is Ok);
        let after = table_after(rows, next_id, news, now);
        assert(after.0 == before.0.push(created(news[last], before.1, now)));
        assert forall|k: int| 0 <= k < news.len() implies #[trigger] after.0[rows.len() + k]
            == created(news[k], (next_id + k) as i32, now) by {
            if k < last {
                assert(before.0[rows.len() + k] == created(front[k], (next_id + k) as i32, now));
            }
        }
        assert forall|k: int| 0 <= k < news.len() implies #[trigger] returned_at(
            rows,
            next_id,
            news,
            now,
            k,
        ) == Ok::<World, StoreError>(created(news[k], (next_id + k) as i32, now)) by {
            let upto = news.subrange(0, k);
            lemma_run_of_new(rows, next_id, news, now, k);
            lemma_batch_of_new(rows, next_id, upto, now);
            lemma_none_of_new(rows, next_id, news, now, k);
            assert(returned_at(rows, next_id, news, now, k) is Ok);
        }
    }
}

/// The first writes of a run of new worldspaces are such a run themselves.
proof fn lemma_run_of_new(
    rows: Seq<World>,
    next_id: i32,
    news: Seq<UnsavedWorld>,
    now: Timestamp,
    n: int,
)
    requires
        0 <= n <= news.len(),
        all_written(rows, next_id, news, now),
        forall|k: int| 0 <= k < news.len() ==> position_of(rows, (#[trigger] news[k]).key()) is None,
        forall|j: int, k: int|
            0 <= j < k < news.len() ==> (#[trigger] news[j]).key() != (#[trigger] news[k]).key(),
    ensures
        ({
            let upto = news.subrange(0, n);
            &&& all_written(rows, next_id, upto, now)
            &&& forall|k: int|
                0 <= k < upto.len() ==> position_of(rows, (#[trigger] upto[k]).key()) is None
            &&& forall|j: int, k: int|
                0 <= j < k < upto.len() ==> (#[trigger] upto[j]).key() != (#[trigger] upto[k]).key()
        }),
{
    let upto = news.subrange(0, n);
    assert forall|k: int| 0 <= k < upto.len() implies (#[trigger] returned_at(
        rows,
        next_id,
        upto,
        now,
        k,
    )) is Ok by {
        assert(upto.subrange(0, k) =~= news.subrange(0, k));
        assert(upto[k] == news[k]);
        assert(returned_at(rows, next_id, news, now, k) is Ok);
    }
    assert forall|k: int| 0 <= k < upto.len() implies position_of(
        rows,
        (#[trigger] upto[k]).key(),
    ) is None by {
        assert(upto[k] == news[k]);
    }
    assert forall|j: int, k: int| 0 <= j < k < upto.len() implies (#[trigger] upto[j]).key() != (
    #[trigger] upto[k]).key() by {
        assert(upto[j] == news[j] && upto[k] == news[k]);
    }
}

/// What write number `n` of a run of new worldspaces writes is not stored
/// when it is written.
proof fn lemma_none_of_new(
    rows: Seq<World>,
    next_id: i32,
    news: Seq<UnsavedWorld>,
    now: Timestamp,
    n: int,
)
    requires
        0 <= n < news.len(),
        position_of(rows, news[n].key()) is None,
        forall|j: int| 0 <= j < n ==> (#[trigger] news[j]).key() != news[n].key(),
        ({
            let before = table_after(rows, next_id, news.subrange(0, n), now);
            &&& before.0.len() == rows.len() + n
            &&& forall|i: int| 0 <= i < rows.len() ==> #[trigger] before.0[i] == rows[i]
            &&& forall|k: int|
                0 <= k < n ==> #[trigger] before.0[rows.len() + k] == created(
                    news.subrange(0, n)[k],
                    (next_id + k) as i32,
                    now,
                )
        }),
    ensures
        position_of(table_after(rows, next_id, news.subrange(0, n), now).0, news[n].key())
            is None,
{
    let before = table_after(rows, next_id, news.subrange(0, n), now);
    let key = news[n].key();
    lemma_position_of(rows, key);
    lemma_position_of(before.0, key);
    if let Some(i) = position_of(before.0, key) {
        if i < rows.len() {
            assert(before.0[i] == rows[i]);
        } else {
            let k = i - rows.len();
            assert(before.0[rows.len() + k] == created(
                news.subrange(0, n)[k],
                (next_id + k) as i32,
                now,
            ));
            assert(news.subrange(0, n)[k] == news[k]);
        }
    }
}

/// Whether no two of the rows share a key.
pub open spec fn rows_differ(news: Seq<UnsavedWorld>) -> bool {
    forall|j: int, k: int|
        0 <= j < k < news.len() ==> (#[trigger] news[j]).key() != (#[trigger] news[k]).key()
}

/// Tells whether no two of the worldspaces to be written are the same, so
/// that they can be written by one statement: a statement writes no row
/// twice.
pub fn keys_differ(news: &[UnsavedWorld]) -> (r: bool)
    ensures
        r == rows_differ(news@),
{
    let mut k: usize = 0;
    while k < news.len()
        invariant
            k <= news.len(),
            forall|a: int, b: int|
                0 <= a < b < k ==> (#[trigger] news@[a]).key() != (#[trigger] news@[b]).key(),
        decreases news.len() - k,
    {
        let mut j: usize = 0;
        while j < k
            invariant
                j <= k,
                k < news.len(),
                forall|a: int| 0 <= a < j ==> (#[trigger] news@[a]).key() != news@[k as int].key(),
            decreases k - j,
        {
            if news[j].form_id == news[k].form_id && str_eq(
                news[j].master.as_str(),
                news[k].master.as_str(),
            ) {
                return false;
            }
            j += 1;
        }
        k += 1;
    }
    true
}

} // verus!

//! What recording a plugin leaves of the store: the laws that follow from
//! the contract of `process_plugin`.

use vstd::prelude::*;
use crate::form_id::{local_form_id, owning_master};
use crate::models::cell::{self, CellMode};
use crate::models::plugin::{self, UnsavedPlugin};
use crate::models::plugin_cell;
use crate::models::plugin_world;
use crate::models::world;
use crate::plugin_processor::{
    cell_world_known, file_name_of, is_cell_row, is_world_row, lemma_world_id_by_rows,
    lemma_world_id_of, strings_view, world_id_of, ParsedCell, ParsedHeader, ParsedPlugin,
    ParsedWorld, PluginSource,
};
use crate::store::{
    are_cell_rows, are_world_rows, cell_held, cell_links_of, holds_all_of, holds_cells_of,
    holds_worlds_of, lemma_names_world, names_world_of, recorded, records_plugin, world_links_of, world_stored,
    worlds_told, Store,
};
use crate::time::Timestamp;

verus! {

/// Whether no table of `after` holds more rows than it held in `before`,
/// and none has handed out an id.
pub open spec fn nothing_added(before: Store, after: Store) -> bool {
    &&& after.plugins.rows@.len() == before.plugins.rows@.len()
    &&& after.plugins.next_id == before.plugins.next_id
    &&& after.worlds.rows@.len() == before.worlds.rows@.len()
    &&& after.worlds.next_id == before.worlds.next_id
    &&& after.plugin_worlds.rows@.len() == before.plugin_worlds.rows@.len()
    &&& after.plugin_worlds.next_id == before.plugin_worlds.next_id
    &&& after.cells.rows@.len() == before.cells.rows@.len()
    &&& after.cells.next_id == before.cells.next_id
    &&& after.plugin_cells.rows@.len() == before.plugin_cells.rows@.len()
    &&& after.plugin_cells.next_id == before.plugin_cells.next_id
}

/// Whether every row of `before` stands in `after` where it stood, as
/// what writes at `now` leave of it: with its id, its key and the moment
/// of its creation, and with the moment of its last write as it was or set
/// to `now`.
pub open spec fn rows_kept(before: Store, after: Store, now: Timestamp) -> bool {
    &&& after.plugins.rows@.len() >= before.plugins.rows@.len()
    &&& after.worlds.rows@.len() >= before.worlds.rows@.len()
    &&& after.plugin_worlds.rows@.len() >= before.plugin_worlds.rows@.len()
    &&& after.cells.rows@.len() >= before.cells.rows@.len()
    &&& after.plugin_cells.rows@.len() >= before.plugin_cells.rows@.len()
    &&& forall|i: int|
        0 <= i < before.plugins.rows@.len() ==> plugin::is_later(
            #[trigger] before.plugins.rows@[i],
            after.plugins.rows@[i],
            now,
        )
    &&& forall|i: int|
        0 <= i < before.worlds.rows@.len() ==> world::is_later(
            #[trigger] before.worlds.rows@[i],
            after.worlds.rows@[i],
            now,
        )
    &&& forall|i: int|
        0 <= i < before.plugin_worlds.rows@.len() ==> plugin_world::is_later(
            #[trigger] before.plugin_worlds.rows@[i],
            after.plugin_worlds.rows@[i],
            now,
        )
    &&& forall|i: int|
        0 <= i < before.cells.rows@.len() ==> cell::is_later(
            #[trigger] before.cells.rows@[i],
            after.cells.rows@[i],
            CellMode::Normal,
            now,
        )
    &&& forall|i: int|
        0 <= i < before.plugin_cells.rows@.len() ==> plugin_cell::is_later(
            #[trigger] before.plugin_cells.rows@[i],
            after.plugin_cells.rows@[i],
            now,
        )
}

/// Recording a plugin loses no row and moves none: every row that was
/// stored keeps its place, its id, its key and the moment of its creation,
/// and the moment of its last write is as it was or the moment of the
/// recording. A cell of the base game is left as it was.
pub proof fn lemma_recording_keeps_rows(
    before: Store,
    after: Store,
    id: i32,
    source: PluginSource,
    parsed: ParsedPlugin,
    hash: i64,
    size: i64,
    file_path: Seq<char>,
    now: Timestamp,
)
    requires
        records_plugin(before, after, id, source, parsed, hash, size, file_path, now),
    ensures
        rows_kept(before, after, now),
{
    let (plugin_row, world_rows, cell_rows) = choose|
        plugin_row: UnsavedPlugin,
        world_rows: Seq<world::UnsavedWorld>,
        cell_rows: Seq<cell::UnsavedCell>,
    |
        #[trigger] recorded(
            before,
            after,
            id,
            source,
            parsed,
            hash,
            size,
            file_path,
            now,
            plugin_row,
            world_rows,
            cell_rows,
        );
    let db_worlds = world::returned_rows(
        before.worlds.rows@,
        before.worlds.next_id,
        world_rows,
        now,
    );
    let db_cells = cell::returned_rows(
        before.cells.rows@,
        before.cells.next_id,
        cell_rows,
        CellMode::Normal,
        now,
    );
    let world_links = world_links_of(db_worlds, parsed.worlds@, id);
    let cell_links = cell_links_of(db_cells, parsed.cells@, id, source.file_id, source.mod_id);
    plugin::lemma_insert_keeps_rows(before.plugins.rows@, before.plugins.next_id, plugin_row, now);
    world::lemma_batch_grows(before.worlds.rows@, before.worlds.next_id, world_rows, now, 0);
    assert(world_rows.subrange(0, 0) =~= Seq::<world::UnsavedWorld>::empty());
    plugin_world::lemma_batch_grows(
        before.plugin_worlds.rows@,
        before.plugin_worlds.next_id,
        after.worlds.rows@,
        world_links,
        now,
        0,
    );
    assert(world_links.subrange(0, 0) =~= Seq::<plugin_world::UnsavedPluginWorld>::empty());
    cell::lemma_batch_grows(
        before.cells.rows@,
        before.cells.next_id,
        cell_rows,
        CellMode::Normal,
        now,
        0,
    );
    assert(cell_rows.subrange(0, 0) =~= Seq::<cell::UnsavedCell>::empty());
    plugin_cell::lemma_batch_grows(
        before.plugin_cells.rows@,
        before.plugin_cells.next_id,
        after.cells.rows@,
        cell_links,
        now,
        0,
    );
    assert(cell_links.subrange(0, 0) =~= Seq::<plugin_cell::UnsavedPluginCell>::empty());
}

/// Whether every row of `before` stands in `after` where it stood, with
/// nothing changed but the moment of its last write.
pub open spec fn same_but_for_updates(before: Store, after: Store) -> bool {
    &&& forall|i: int|
        0 <= i < before.plugins.rows@.len() ==> plugin::same_but_for_update(
            #[trigger] after.plugins.rows@[i],
            before.plugins.rows@[i],
        )
    &&& forall|i: int|
        0 <= i < before.worlds.rows@.len() ==> #[trigger] after.worlds.rows@[i] == (world::World {
            updated_at: after.worlds.rows@[i].updated_at,
            ..before.worlds.rows@[i]
        })
    &&& forall|i: int|
        0 <= i < before.plugin_worlds.rows@.len() ==> #[trigger] after.plugin_worlds.rows@[i] == (
        plugin_world::PluginWorld {
            updated_at: after.plugin_worlds.rows@[i].updated_at,
            ..before.plugin_worlds.rows@[i]
        })
    &&& forall|i: int|
        0 <= i < before.cells.rows@.len() ==> cell::same_but_for_update(
            #[trigger] after.cells.rows@[i],
            before.cells.rows@[i],
        )
    &&& forall|i: int|
        0 <= i < before.plugin_cells.rows@.len() ==> #[trigger] after.plugin_cells.rows@[i] == (
        plugin_cell::PluginCell {
            updated_at: after.plugin_cells.rows@[i].updated_at,
            ..before.plugin_cells.rows@[i]
        })
}

/// Recording a plugin a second time, with nothing written in between,
/// adds no row to any table and hands back the id of the first recording.
/// Every row stands where it stood, and nothing of it has changed but the
/// moment of its last write, which is as it was or the moment of the
/// second recording.
pub proof fn lemma_recording_twice(
    before: Store,
    once: Store,
    twice: Store,
    first_id: i32,
    second_id: i32,
    source: PluginSource,
    parsed: ParsedPlugin,
    hash: i64,
    size: i64,
    file_path: Seq<char>,
    first: Timestamp,
    second: Timestamp,
)
    requires
        once.well_formed(),
        twice.well_formed(),
        records_plugin(before, once, first_id, source, parsed, hash, size, file_path, first),
        records_plugin(once, twice, second_id, source, parsed, hash, size, file_path, second),
    ensures
        second_id == first_id,
        nothing_added(once, twice),
        rows_kept(once, twice, second),
        same_but_for_updates(once, twice),
{
    lemma_plugin_twice(
        before,
        once,
        twice,
        first_id,
        second_id,
        source,
        parsed,
        hash,
        size,
        file_path,
        first,
        second,
    );
    lemma_recording_keeps_rows(
        once,
        twice,
        second_id,
        source,
        parsed,
        hash,
        size,
        file_path,
        second,
    );
    let (p1, w1, c1) = choose|
        plugin_row: UnsavedPlugin,
        world_rows: Seq<world::UnsavedWorld>,
        cell_rows: Seq<cell::UnsavedCell>,
    |
        #[trigger] recorded(
            before,
            once,
            first_id,
            source,
            parsed,
            hash,
            size,
            file_path,
            first,
            plugin_row,
            world_rows,
            cell_rows,
        );
    let (p2, w2, c2) = choose|
        plugin_row: UnsavedPlugin,
        world_rows: Seq<world::UnsavedWorld>,
        cell_rows: Seq<cell::UnsavedCell>,
    |
        #[trigger] recorded(
            once,
            twice,
            second_id,
            source,
            parsed,
            hash,
            size,
            file_path,
            second,
            plugin_row,
            world_rows,
            cell_rows,
        );
    let masters = strings_view(parsed.header.masters@);
    let name = file_name_of(file_path);
    plugin::lemma_insert_again(before.plugins.rows@, before.plugins.next_id, p1, p2, first, second);
    assert(second_id == first_id);
    lemma_worlds_twice(before, once, twice, first_id, parsed, name, w1, w2, first, second);
    let db_once = world::returned_rows(before.worlds.rows@, before.worlds.next_id, w1, first);
    let db_twice = world::returned_rows(once.worlds.rows@, once.worlds.next_id, w2, second);
    assert forall|k: int| 0 <= k < c1.len() implies {
        &&& (#[trigger] c1[k]).key() == c2[k].key()
        &&& c1[k].x == c2[k].x
        &&& c1[k].y == c2[k].y
        &&& c1[k].is_persistent == c2[k].is_persistent
    } by {
        assert(is_cell_row(c1[k], parsed.cells@[k], masters, name, db_once));
        assert(is_cell_row(c2[k], parsed.cells@[k], masters, name, db_twice));
        if let Some(w) = parsed.cells@[k].world_form_id {
            lemma_world_id_by_rows(
                db_once,
                db_twice,
                local_form_id(w),
                owning_master(w, masters, name),
            );
        }
    }
    lemma_cells_twice(
        before,
        once,
        twice,
        first_id,
        source,
        parsed,
        c1,
        c2,
        first,
        second,
    );
}

/// The worldspaces of a plugin and the links to them, written a second
/// time: no row is added, and the second run hands back the rows of the
/// first by id and key.
proof fn lemma_worlds_twice(
    before: Store,
    once: Store,
    twice: Store,
    id: i32,
    parsed: ParsedPlugin,
    name: Seq<char>,
    w1: Seq<world::UnsavedWorld>,
    w2: Seq<world::UnsavedWorld>,
    first: Timestamp,
    second: Timestamp,
)
    requires
        once.well_formed(),
        twice.well_formed(),
        are_world_rows(w1, parsed.worlds@, strings_view(parsed.header.masters@), name),
        are_world_rows(w2, parsed.worlds@, strings_view(parsed.header.masters@), name),
        (once.worlds.rows@, once.worlds.next_id) == world::table_after(
            before.worlds.rows@,
            before.worlds.next_id,
            w1,
            first,
        ),
        (twice.worlds.rows@, twice.worlds.next_id) == world::table_after(
            once.worlds.rows@,
            once.worlds.next_id,
            w2,
            second,
        ),
        world::all_written(before.worlds.rows@, before.worlds.next_id, w1, first),
        (once.plugin_worlds.rows@, once.plugin_worlds.next_id) == plugin_world::table_after(
            before.plugin_worlds.rows@,
            before.plugin_worlds.next_id,
            once.worlds.rows@,
            world_links_of(
                world::returned_rows(before.worlds.rows@, before.worlds.next_id, w1, first),
                parsed.worlds@,
                id,
            ),
            first,
        ),
        (twice.plugin_worlds.rows@, twice.plugin_worlds.next_id) == plugin_world::table_after(
            once.plugin_worlds.rows@,
            once.plugin_worlds.next_id,
            twice.worlds.rows@,
            world_links_of(
                world::returned_rows(once.worlds.rows@, once.worlds.next_id, w2, second),
                parsed.worlds@,
                id,
            ),
            second,
        ),
        plugin_world::all_written(
            before.plugin_worlds.rows@,
            before.plugin_worlds.next_id,
            once.worlds.rows@,
            world_links_of(
                world::returned_rows(before.worlds.rows@, before.worlds.next_id, w1, first),
                parsed.worlds@,
                id,
            ),
            first,
        ),
    ensures
        forall|i: int|
            0 <= i < once.plugin_worlds.rows@.len() ==> #[trigger] twice.plugin_worlds.rows@[i] == (
            plugin_world::PluginWorld {
                updated_at: twice.plugin_worlds.rows@[i].updated_at,
                ..once.plugin_worlds.rows@[i]
            }),
        twice.worlds.rows@.len() == once.worlds.rows@.len(),
        twice.worlds.next_id == once.worlds.next_id,
        twice.plugin_worlds.rows@.len() == once.plugin_worlds.rows@.len(),
        twice.plugin_worlds.next_id == once.plugin_worlds.next_id,
        ({
            let db_once = world::returned_rows(before.worlds.rows@, before.worlds.next_id, w1, first);
            let db_twice = world::returned_rows(once.worlds.rows@, once.worlds.next_id, w2, second);
            &&& db_once.len() == db_twice.len()
            &&& forall|k: int|
                0 <= k < db_once.len() ==> (#[trigger] db_once[k]).id == db_twice[k].id
                    && db_once[k].key() == db_twice[k].key()
        }),
{
    let db_once = world::returned_rows(before.worlds.rows@, before.worlds.next_id, w1, first);
    let db_twice = world::returned_rows(once.worlds.rows@, once.worlds.next_id, w2, second);
    let links_once = world_links_of(db_once, parsed.worlds@, id);
    let links_twice = world_links_of(db_twice, parsed.worlds@, id);
    assert forall|k: int| 0 <= k < w1.len() implies (#[trigger] w1[k]).key() == w2[k].key() by {
        assert(is_world_row(w1[k], parsed.worlds@[k], strings_view(parsed.header.masters@), name));
        assert(is_world_row(w2[k], parsed.worlds@[k], strings_view(parsed.header.masters@), name));
    }
    world::lemma_batch_twice(
        before.worlds.rows@,
        before.worlds.next_id,
        w1,
        w2,
        first,
        second,
    );
    assert forall|k: int| 0 <= k < db_once.len() implies (#[trigger] db_once[k]).id
        == db_twice[k].id && db_once[k].key() == db_twice[k].key() by {
        let a = world::returned_at(before.worlds.rows@, before.worlds.next_id, w1, first, k);
        assert(db_once[k] == a->Ok_0);
    }
    world::lemma_batch_grows(once.worlds.rows@, once.worlds.next_id, w2, second, 0);
    assert(w2.subrange(0, 0) =~= Seq::<world::UnsavedWorld>::empty());
    assert forall|k: int| 0 <= k < links_twice.len() implies plugin_world::world_exists(
        twice.worlds.rows@,
        (#[trigger] links_twice[k]).world_id,
    ) by {
        assert(world::returned_at(once.worlds.rows@, once.worlds.next_id, w2, second, k) is Ok);
        world::lemma_batch_rows_stored(once.worlds.rows@, once.worlds.next_id, w2, second, k);
        let j = choose|j: int|
            0 <= j < twice.worlds.rows@.len() && (#[trigger] twice.worlds.rows@[j]).id
                == db_twice[k].id && twice.worlds.rows@[j].key() == w2[k].key();
        assert(twice.worlds.rows@[j].id == links_twice[k].world_id);
    }
    assert forall|k: int| 0 <= k < links_once.len() implies (#[trigger] links_once[k]).key()
        == links_twice[k].key() && links_once[k].editor_id == links_twice[k].editor_id by {
        assert(db_once[k].id == db_twice[k].id);
    }
    plugin_world::lemma_batch_twice_keeps_rows(
        before.plugin_worlds.rows@,
        before.plugin_worlds.next_id,
        once.worlds.rows@,
        twice.worlds.rows@,
        links_once,
        links_twice,
        first,
        second,
    );
    plugin_world::lemma_batch_twice(
        before.plugin_worlds.rows@,
        before.plugin_worlds.next_id,
        once.worlds.rows@,
        twice.worlds.rows@,
        links_once,
        links_twice,
        first,
        second,
    );
}

/// The cells of a plugin and the links to them, written a second time: no
/// row is added.
proof fn lemma_cells_twice(
    before: Store,
    once: Store,
    twice: Store,
    id: i32,
    source: PluginSource,
    parsed: ParsedPlugin,
    c1: Seq<cell::UnsavedCell>,
    c2: Seq<cell::UnsavedCell>,
    first: Timestamp,
    second: Timestamp,
)
    requires
        once.well_formed(),
        twice.well_formed(),
        c1.len() == parsed.cells@.len(),
        c2.len() == parsed.cells@.len(),
        forall|k: int|
            0 <= k < c1.len() ==> {
                &&& (#[trigger] c1[k]).key() == c2[k].key()
                &&& c1[k].x == c2[k].x
                &&& c1[k].y == c2[k].y
                &&& c1[k].is_persistent == c2[k].is_persistent
            },
        (once.cells.rows@, once.cells.next_id) == cell::table_after(
            before.cells.rows@,
            before.cells.next_id,
            c1,
            CellMode::Normal,
            first,
        ),
        (twice.cells.rows@, twice.cells.next_id) == cell::table_after(
            once.cells.rows@,
            once.cells.next_id,
            c2,
            CellMode::Normal,
            second,
        ),
        cell::all_written(before.cells.rows@, before.cells.next_id, c1, CellMode::Normal, first),
        (once.plugin_cells.rows@, once.plugin_cells.next_id) == plugin_cell::table_after(
            before.plugin_cells.rows@,
            before.plugin_cells.next_id,
            once.cells.rows@,
            cell_links_of(
                cell::returned_rows(
                    before.cells.rows@,
                    before.cells.next_id,
                    c1,
                    CellMode::Normal,
                    first,
                ),
                parsed.cells@,
                id,
                source.file_id,
                source.mod_id,
            ),
            first,
        ),
        (twice.plugin_cells.rows@, twice.plugin_cells.next_id) == plugin_cell::table_after(
            once.plugin_cells.rows@,
            once.plugin_cells.next_id,
            twice.cells.rows@,
            cell_links_of(
                cell::returned_rows(
                    once.cells.rows@,
                    once.cells.next_id,
                    c2,
                    CellMode::Normal,
                    second,
                ),
                parsed.cells@,
                id,
                source.file_id,
                source.mod_id,
            ),
            second,
        ),
        plugin_cell::all_written(
            before.plugin_cells.rows@,
            before.plugin_cells.next_id,
            once.cells.rows@,
            cell_links_of(
                cell::returned_rows(
                    before.cells.rows@,
                    before.cells.next_id,
                    c1,
                    CellMode::Normal,
                    first,
                ),
                parsed.cells@,
                id,
                source.file_id,
                source.mod_id,
            ),
            first,
        ),
    ensures
        forall|i: int|
            0 <= i < once.cells.rows@.len() ==> cell::same_but_for_update(
                #[trigger] twice.cells.rows@[i],
                once.cells.rows@[i],
            ),
        forall|i: int|
            0 <= i < once.plugin_cells.rows@.len() ==> #[trigger] twice.plugin_cells.rows@[i] == (
            plugin_cell::PluginCell {
                updated_at: twice.plugin_cells.rows@[i].updated_at,
                ..once.plugin_cells.rows@[i]
            }),
        twice.cells.rows@.len() == once.cells.rows@.len(),
        twice.cells.next_id == once.cells.next_id,
        twice.plugin_cells.rows@.len() == once.plugin_cells.rows@.len(),
        twice.plugin_cells.next_id == once.plugin_cells.next_id,
{
    let db_once = cell::returned_rows(
        before.cells.rows@,
        before.cells.next_id,
        c1,
        CellMode::Normal,
        first,
    );
    let db_twice = cell::returned_rows(
        once.cells.rows@,
        once.cells.next_id,
        c2,
        CellMode::Normal,
        second,
    );
    let links_once = cell_links_of(db_once, parsed.cells@, id, source.file_id, source.mod_id);
    let links_twice = cell_links_of(db_twice, parsed.cells@, id, source.file_id, source.mod_id);
    cell::lemma_batch_twice_keeps_rows(
        before.cells.rows@,
        before.cells.next_id,
        c1,
        c2,
        CellMode::Normal,
        first,
        second,
    );
    cell::lemma_batch_twice(
        before.cells.rows@,
        before.cells.next_id,
        c1,
        c2,
        CellMode::Normal,
        first,
        second,
    );
    assert forall|k: int| 0 <= k < db_once.len() implies (#[trigger] db_once[k]).id
        == db_twice[k].id by {
        let a = cell::returned_at(
            before.cells.rows@,
            before.cells.next_id,
            c1,
            CellMode::Normal,
            first,
            k,
        );
        assert(db_once[k] == a->Ok_0);
    }
    assert forall|k: int| 0 <= k < links_twice.len() implies plugin_cell::cell_exists(
        twice.cells.rows@,
        (#[trigger] links_twice[k]).cell_id,
    ) by {
        assert(cell::returned_at(
            once.cells.rows@,
            once.cells.next_id,
            c2,
            CellMode::Normal,
            second,
            k,
        ) is Ok);
        cell::lemma_batch_rows_stored(
            once.cells.rows@,
            once.cells.next_id,
            c2,
            CellMode::Normal,
            second,
            k,
        );
        let j = choose|j: int|
            0 <= j < twice.cells.rows@.len() && (#[trigger] twice.cells.rows@[j]).id
                == db_twice[k].id && twice.cells.rows@[j].key() == c2[k].key();
        assert(twice.cells.rows@[j].id == links_twice[k].cell_id);
    }
    assert forall|k: int| 0 <= k < links_once.len() implies (#[trigger] links_once[k]).key()
        == links_twice[k].key() && links_once[k].editor_id == links_twice[k].editor_id by {
        assert(db_once[k].id == db_twice[k].id);
    }
    plugin_cell::lemma_batch_twice_keeps_rows(
        before.plugin_cells.rows@,
        before.plugin_cells.next_id,
        once.cells.rows@,
        twice.cells.rows@,
        links_once,
        links_twice,
        first,
        second,
    );
    plugin_cell::lemma_batch_twice(
        before.plugin_cells.rows@,
        before.plugin_cells.next_id,
        once.cells.rows@,
        twice.cells.rows@,
        links_once,
        links_twice,
        first,
        second,
    );
}

/// Whether `row` is the stored row of a plugin that was recorded at `now`
/// under `id`: every column but the size and the moment of creation is as
/// the recording gave it.
pub open spec fn is_recorded_plugin(
    row: plugin::Plugin,
    id: i32,
    source: PluginSource,
    header: ParsedHeader,
    hash: i64,
    file_path: Seq<char>,
    now: Timestamp,
) -> bool {
    &&& row.id == id
    &&& row.name == source.file_display_name
    &&& row.hash == hash
    &&& row.file_id == source.file_id
    &&& row.mod_id == source.mod_id
    &&& row.version_bits == header.version_bits
    &&& row.author == header.author
    &&& row.description == header.description
    &&& row.masters@ == header.masters@
    &&& row.file_name@ == file_name_of(file_path)
    &&& row.file_path@ == file_path
    &&& row.updated_at == now
}

/// The row of a recorded plugin holds what the recording gave: name,
/// hash, file, mod, version, author, description, masters, file name and
/// path, and the moment of the recording as that of the last write. A
/// plugin that was not stored before also has its size and the moment of
/// the recording as that of its creation. One that was stored stands where
/// it stood and keeps its id, its size and the moment of its creation.
pub proof fn lemma_recording_stores_plugin(
    before: Store,
    after: Store,
    id: i32,
    source: PluginSource,
    parsed: ParsedPlugin,
    hash: i64,
    size: i64,
    file_path: Seq<char>,
    now: Timestamp,
)
    requires
        records_plugin(before, after, id, source, parsed, hash, size, file_path, now),
    ensures
        match plugin::position_of(before.plugins.rows@, (source.file_id, file_path)) {
            None => {
                let row = after.plugins.rows@.last();
                &&& after.plugins.rows@.len() == before.plugins.rows@.len() + 1
                &&& is_recorded_plugin(row, id, source, parsed.header, hash, file_path, now)
                &&& row.size == size
                &&& row.created_at == now
                &&& id == before.plugins.next_id
            },
            Some(i) => {
                let row = after.plugins.rows@[i];
                &&& after.plugins.rows@.len() == before.plugins.rows@.len()
                &&& is_recorded_plugin(row, id, source, parsed.header, hash, file_path, now)
                &&& row.size == before.plugins.rows@[i].size
                &&& row.created_at == before.plugins.rows@[i].created_at
                &&& id == before.plugins.rows@[i].id
            },
        },
{
    let (plugin_row, world_rows, cell_rows) = choose|
        plugin_row: UnsavedPlugin,
        world_rows: Seq<world::UnsavedWorld>,
        cell_rows: Seq<cell::UnsavedCell>,
    |
        #[trigger] recorded(
            before,
            after,
            id,
            source,
            parsed,
            hash,
            size,
            file_path,
            now,
            plugin_row,
            world_rows,
            cell_rows,
        );
    assert(plugin_row.key() == (source.file_id, file_path));
    plugin::lemma_position_of(before.plugins.rows@, plugin_row.key());
}

/// Whether two cells of a plugin are stored as one cell: they have the
/// same local form id and master, and both are interior cells or both lie
/// in the same worldspace, told by its local form id and master.
pub open spec fn same_cell(a: ParsedCell, b: ParsedCell, masters: Seq<Seq<char>>, file_name: Seq<char>)
    -> bool {
    &&& local_form_id(a.form_id) == local_form_id(b.form_id)
    &&& owning_master(a.form_id, masters, file_name) == owning_master(b.form_id, masters, file_name)
    &&& match (a.world_form_id, b.world_form_id) {
        (None, None) => true,
        (Some(v), Some(w)) => local_form_id(v) == local_form_id(w) && owning_master(
            v,
            masters,
            file_name,
        ) == owning_master(w, masters, file_name),
        _ => false,
    }
}

/// Whether no later cell of the plugin is stored as the same cell as cell
/// number `k`.
pub open spec fn is_last_of_its_cell(parsed: ParsedPlugin, file_name: Seq<char>, k: int) -> bool {
    forall|j: int|
        k < j < parsed.cells@.len() ==> !same_cell(
            #[trigger] parsed.cells@[j],
            parsed.cells@[k],
            strings_view(parsed.header.masters@),
            file_name,
        )
}

/// Whether `row` and `link` are the stored row of a parsed cell and the
/// link from the plugin to it.
///
/// The row has the local form id and the master of the cell and names its
/// worldspace. It is a cell of the base game, which an ingestion leaves
/// alone, or it has the place on the grid and the persistence of the
/// parsed cell and the moment of the recording. The link joins the plugin
/// and the row, and has the editor id of the parsed cell and the moment of
/// the recording.
pub open spec fn is_recorded_cell(
    store: Store,
    row: cell::Cell,
    link: plugin_cell::PluginCell,
    id: i32,
    cell: ParsedCell,
    masters: Seq<Seq<char>>,
    file_name: Seq<char>,
    now: Timestamp,
) -> bool {
    &&& row.form_id == local_form_id(cell.form_id)
    &&& row.master@ == owning_master(cell.form_id, masters, file_name)
    &&& names_world_of(store.worlds.rows@, row.world_id, cell, masters, file_name)
    &&& row.is_base_game || (row.x == cell.x && row.y == cell.y && row.is_persistent
        == cell.is_persistent && row.updated_at == now)
    &&& link.plugin_id == id
    &&& link.cell_id == row.id
    &&& link.editor_id == cell.editor_id
    &&& link.updated_at == now
}

/// Every cell of a recorded plugin is stored as the plugin describes it,
/// with a link from the plugin that carries its editor id. This holds of
/// each cell after which the plugin holds no cell that is stored as the
/// same cell: of two such cells the later is the one whose place and
/// editor id are stored.
pub proof fn lemma_recording_stores_cell(
    before: Store,
    after: Store,
    id: i32,
    source: PluginSource,
    parsed: ParsedPlugin,
    hash: i64,
    size: i64,
    file_path: Seq<char>,
    now: Timestamp,
    k: int,
)
    requires
        after.well_formed(),
        records_plugin(before, after, id, source, parsed, hash, size, file_path, now),
        0 <= k < parsed.cells@.len(),
        is_last_of_its_cell(parsed, file_name_of(file_path), k),
    ensures
        exists|i: int, l: int|
            0 <= i < after.cells.rows@.len() && 0 <= l < after.plugin_cells.rows@.len()
                && is_recorded_cell(
                after,
                #[trigger] after.cells.rows@[i],
                #[trigger] after.plugin_cells.rows@[l],
                id,
                parsed.cells@[k],
                strings_view(parsed.header.masters@),
                file_name_of(file_path),
                now,
            ),
{
    let (plugin_row, world_rows, cell_rows) = choose|
        plugin_row: UnsavedPlugin,
        world_rows: Seq<world::UnsavedWorld>,
        cell_rows: Seq<cell::UnsavedCell>,
    |
        #[trigger] recorded(
            before,
            after,
            id,
            source,
            parsed,
            hash,
            size,
            file_path,
            now,
            plugin_row,
            world_rows,
            cell_rows,
        );
    let masters = strings_view(parsed.header.masters@);
    let name = file_name_of(file_path);
    let db_worlds = world::returned_rows(
        before.worlds.rows@,
        before.worlds.next_id,
        world_rows,
        now,
    );
    let db_cells = cell::returned_rows(
        before.cells.rows@,
        before.cells.next_id,
        cell_rows,
        CellMode::Normal,
        now,
    );
    let links = cell_links_of(db_cells, parsed.cells@, id, source.file_id, source.mod_id);
    let c = parsed.cells@[k];
    assert(is_cell_row(cell_rows[k], c, masters, name, db_worlds));
    assert forall|j: int| k < j < cell_rows.len() implies (#[trigger] cell_rows[j]).key()
        != cell_rows[k].key() by {
        assert(is_cell_row(cell_rows[j], parsed.cells@[j], masters, name, db_worlds));
        assert(!same_cell(parsed.cells@[j], c, masters, name));
        lemma_other_cell_other_key(
            before,
            after,
            parsed,
            name,
            world_rows,
            now,
            parsed.cells@[j],
            c,
            cell_rows[j],
            cell_rows[k],
        );
    }
    assert(cell::returned_at(
        before.cells.rows@,
        before.cells.next_id,
        cell_rows,
        CellMode::Normal,
        now,
        k,
    ) is Ok);
    cell::lemma_batch_last_write(
        before.cells.rows@,
        before.cells.next_id,
        cell_rows,
        CellMode::Normal,
        now,
        k,
    );
    let row = db_cells[k];
    let i = choose|i: int| 0 <= i < after.cells.rows@.len() && after.cells.rows@[i] == row;
    lemma_names_world(before, after, parsed, name, world_rows, now, c, cell_rows[k].world_id);
    assert forall|j: int| k < j < links.len() implies (#[trigger] links[j]).key()
        != links[k].key() by {
        assert(cell_rows[j].key() != cell_rows[k].key());
        assert(cell::returned_at(
            before.cells.rows@,
            before.cells.next_id,
            cell_rows,
            CellMode::Normal,
            now,
            j,
        ) is Ok);
        cell::lemma_batch_rows_stored(
            before.cells.rows@,
            before.cells.next_id,
            cell_rows,
            CellMode::Normal,
            now,
            j,
        );
        cell::lemma_batch_rows_stored(
            before.cells.rows@,
            before.cells.next_id,
            cell_rows,
            CellMode::Normal,
            now,
            k,
        );
        let a = choose|a: int|
            0 <= a < after.cells.rows@.len() && (#[trigger] after.cells.rows@[a]).id
                == db_cells[j].id && after.cells.rows@[a].key() == cell_rows[j].key();
        let b = choose|b: int|
            0 <= b < after.cells.rows@.len() && (#[trigger] after.cells.rows@[b]).id
                == db_cells[k].id && after.cells.rows@[b].key() == cell_rows[k].key();
        if db_cells[j].id == db_cells[k].id {
            if a < b {
                assert(after.cells.rows@[a].id != after.cells.rows@[b].id);
            } else if b < a {
                assert(after.cells.rows@[b].id != after.cells.rows@[a].id);
            }
        }
    }
    assert(plugin_cell::written_at(
        before.plugin_cells.rows@,
        before.plugin_cells.next_id,
        after.cells.rows@,
        links,
        now,
        k,
    ));
    plugin_cell::lemma_batch_last_write(
        before.plugin_cells.rows@,
        before.plugin_cells.next_id,
        after.cells.rows@,
        links,
        now,
        k,
    );
    let l = choose|l: int|
        0 <= l < after.plugin_cells.rows@.len() && plugin_cell::is_written(
            #[trigger] after.plugin_cells.rows@[l],
            links[k],
            now,
        );
    assert(is_recorded_cell(
        after,
        after.cells.rows@[i],
        after.plugin_cells.rows@[l],
        id,
        c,
        masters,
        name,
        now,
    ));
}

/// Whether no later worldspace of the plugin has the local form id and the
/// master of worldspace number `k`.
pub open spec fn is_last_world_of_its_form(parsed: ParsedPlugin, file_name: Seq<char>, k: int)
    -> bool {
    let masters = strings_view(parsed.header.masters@);
    forall|j: int|
        k < j < parsed.worlds@.len() ==> !(local_form_id((#[trigger] parsed.worlds@[j]).form_id)
            == local_form_id(parsed.worlds@[k].form_id) && owning_master(
            parsed.worlds@[j].form_id,
            masters,
            file_name,
        ) == owning_master(parsed.worlds@[k].form_id, masters, file_name))
}

/// Whether `row` and `link` are the stored row of a parsed worldspace and
/// the link from the plugin to it: the row has the local form id and the
/// master of the worldspace; the link joins the plugin and the row, and
/// has the editor id of the parsed worldspace and the moment of the
/// recording.
pub open spec fn is_recorded_world(
    row: world::World,
    link: plugin_world::PluginWorld,
    id: i32,
    parsed_world: ParsedWorld,
    masters: Seq<Seq<char>>,
    file_name: Seq<char>,
    now: Timestamp,
) -> bool {
    &&& row.form_id == local_form_id(parsed_world.form_id)
    &&& row.master@ == owning_master(parsed_world.form_id, masters, file_name)
    &&& link.plugin_id == id
    &&& link.world_id == row.id
    &&& link.editor_id == parsed_world.editor_id
    &&& link.updated_at == now
}

/// Every worldspace of a recorded plugin is stored, with a link from the
/// plugin that carries its editor id. This holds of each worldspace after
/// which the plugin holds no worldspace of the same local form id and
/// master: of two such worldspaces the later is the one whose editor id is
/// stored.
pub proof fn lemma_recording_stores_world(
    before: Store,
    after: Store,
    id: i32,
    source: PluginSource,
    parsed: ParsedPlugin,
    hash: i64,
    size: i64,
    file_path: Seq<char>,
    now: Timestamp,
    k: int,
)
    requires
        after.well_formed(),
        records_plugin(before, after, id, source, parsed, hash, size, file_path, now),
        0 <= k < parsed.worlds@.len(),
        is_last_world_of_its_form(parsed, file_name_of(file_path), k),
    ensures
        exists|i: int, l: int|
            0 <= i < after.worlds.rows@.len() && 0 <= l < after.plugin_worlds.rows@.len()
                && is_recorded_world(
                #[trigger] after.worlds.rows@[i],
                #[trigger] after.plugin_worlds.rows@[l],
                id,
                parsed.worlds@[k],
                strings_view(parsed.header.masters@),
                file_name_of(file_path),
                now,
            ),
{
    let (plugin_row, world_rows, cell_rows) = choose|
        plugin_row: UnsavedPlugin,
        world_rows: Seq<world::UnsavedWorld>,
        cell_rows: Seq<cell::UnsavedCell>,
    |
        #[trigger] recorded(
            before,
            after,
            id,
            source,
            parsed,
            hash,
            size,
            file_path,
            now,
            plugin_row,
            world_rows,
            cell_rows,
        );
    let masters = strings_view(parsed.header.masters@);
    let name = file_name_of(file_path);
    let rows = before.worlds.rows@;
    let next_id = before.worlds.next_id;
    let db_worlds = world::returned_rows(rows, next_id, world_rows, now);
    let links = world_links_of(db_worlds, parsed.worlds@, id);
    assert(is_world_row(world_rows[k], parsed.worlds@[k], masters, name));
    assert(world::returned_at(rows, next_id, world_rows, now, k) is Ok);
    world::lemma_batch_rows_stored(rows, next_id, world_rows, now, k);
    let i = choose|i: int|
        0 <= i < after.worlds.rows@.len() && (#[trigger] after.worlds.rows@[i]).id
            == db_worlds[k].id && after.worlds.rows@[i].key() == world_rows[k].key();
    assert forall|j: int| k < j < links.len() implies (#[trigger] links[j]).key()
        != links[k].key() by {
        assert(is_world_row(world_rows[j], parsed.worlds@[j], masters, name));
        assert(world_rows[j].key() != world_rows[k].key());
        assert(world::returned_at(rows, next_id, world_rows, now, j) is Ok);
        world::lemma_batch_rows_stored(rows, next_id, world_rows, now, j);
        let a = choose|a: int|
            0 <= a < after.worlds.rows@.len() && (#[trigger] after.worlds.rows@[a]).id
                == db_worlds[j].id && after.worlds.rows@[a].key() == world_rows[j].key();
        if db_worlds[j].id == db_worlds[k].id {
            if a < i {
                assert(after.worlds.rows@[a].id != after.worlds.rows@[i].id);
            } else if i < a {
                assert(after.worlds.rows@[i].id != after.worlds.rows@[a].id);
            }
        }
    }
    assert(plugin_world::written_at(
        before.plugin_worlds.rows@,
        before.plugin_worlds.next_id,
        after.worlds.rows@,
        links,
        now,
        k,
    ));
    plugin_world::lemma_batch_last_write(
        before.plugin_worlds.rows@,
        before.plugin_worlds.next_id,
        after.worlds.rows@,
        links,
        now,
        k,
    );
    let l = choose|l: int|
        0 <= l < after.plugin_worlds.rows@.len() && plugin_world::is_written(
            #[trigger] after.plugin_worlds.rows@[l],
            links[k],
            now,
        );
    assert(is_recorded_world(
        after.worlds.rows@[i],
        after.plugin_worlds.rows@[l],
        id,
        parsed.worlds@[k],
        masters,
        name,
        now,
    ));
}

/// The row of a plugin, written a second time: nothing of any row of the
/// table has changed but the moment of its last write.
proof fn lemma_plugin_twice(
    before: Store,
    once: Store,
    twice: Store,
    first_id: i32,
    second_id: i32,
    source: PluginSource,
    parsed: ParsedPlugin,
    hash: i64,
    size: i64,
    file_path: Seq<char>,
    first: Timestamp,
    second: Timestamp,
)
    requires
        records_plugin(before, once, first_id, source, parsed, hash, size, file_path, first),
        records_plugin(once, twice, second_id, source, parsed, hash, size, file_path, second),
    ensures
        forall|i: int|
            0 <= i < once.plugins.rows@.len() ==> plugin::same_but_for_update(
                #[trigger] twice.plugins.rows@[i],
                once.plugins.rows@[i],
            ),
{
    let (p2, w2, c2) = choose|
        plugin_row: UnsavedPlugin,
        world_rows: Seq<world::UnsavedWorld>,
        cell_rows: Seq<cell::UnsavedCell>,
    |
        #[trigger] recorded(
            once,
            twice,
            second_id,
            source,
            parsed,
            hash,
            size,
            file_path,
            second,
            plugin_row,
            world_rows,
            cell_rows,
        );
    let key = (source.file_id, file_path);
    lemma_recording_stores_plugin(before, once, first_id, source, parsed, hash, size, file_path, first);
    lemma_recording_stores_plugin(
        once,
        twice,
        second_id,
        source,
        parsed,
        hash,
        size,
        file_path,
        second,
    );
    plugin::lemma_position_of(before.plugins.rows@, key);
    plugin::lemma_position_of(once.plugins.rows@, key);
    plugin::lemma_insert_keeps_rows(once.plugins.rows@, once.plugins.next_id, p2, second);
    let at = match plugin::position_of(before.plugins.rows@, key) {
        Some(i) => i,
        None => before.plugins.rows@.len() as int,
    };
    assert(once.plugins.rows@[at].key() == key);
    assert(plugin::position_of(once.plugins.rows@, key) is Some);
    let again = plugin::position_of(once.plugins.rows@, key)->0;
    assert forall|i: int| 0 <= i < once.plugins.rows@.len() implies plugin::same_but_for_update(
        #[trigger] twice.plugins.rows@[i],
        once.plugins.rows@[i],
    ) by {
        assert(plugin::is_later(once.plugins.rows@[i], twice.plugins.rows@[i], second));
        if i != again {
            assert(twice.plugins.rows@[i] == once.plugins.rows@[i]);
        }
    }
}

/// Whether the store holds nothing of a plugin that is recorded under
/// `id`: not the plugin, no worldspace and no cell with the local form id
/// and the master of one of its own, and no link of the plugin.
pub open spec fn holds_nothing_of(
    store: Store,
    id: i32,
    source: PluginSource,
    parsed: ParsedPlugin,
    file_path: Seq<char>,
) -> bool {
    let masters = strings_view(parsed.header.masters@);
    let name = file_name_of(file_path);
    &&& plugin::position_of(store.plugins.rows@, (source.file_id, file_path)) is None
    &&& forall|i: int, k: int|
        0 <= i < store.worlds.rows@.len() && 0 <= k < parsed.worlds@.len() ==> !((
        #[trigger] store.worlds.rows@[i]).form_id == local_form_id(
            (#[trigger] parsed.worlds@[k]).form_id,
        ) && store.worlds.rows@[i].master@ == owning_master(
            parsed.worlds@[k].form_id,
            masters,
            name,
        ))
    &&& forall|i: int, k: int|
        0 <= i < store.cells.rows@.len() && 0 <= k < parsed.cells@.len() ==> !((
        #[trigger] store.cells.rows@[i]).form_id == local_form_id(
            (#[trigger] parsed.cells@[k]).form_id,
        ) && store.cells.rows@[i].master@ == owning_master(parsed.cells@[k].form_id, masters, name))
    &&& forall|i: int|
        0 <= i < store.plugin_worlds.rows@.len() ==> (#[trigger] store.plugin_worlds.rows@[i]).plugin_id
            != id
    &&& forall|i: int|
        0 <= i < store.plugin_cells.rows@.len() ==> (#[trigger] store.plugin_cells.rows@[i]).plugin_id
            != id
}

/// Whether no two worldspaces of the plugin share local form id and
/// master, and no two cells of the plugin are stored as one cell.
pub open spec fn rows_differ(parsed: ParsedPlugin, file_name: Seq<char>) -> bool {
    &&& forall|k: int|
        0 <= k < parsed.worlds@.len() ==> #[trigger] is_last_world_of_its_form(parsed, file_name, k)
    &&& forall|k: int|
        0 <= k < parsed.cells@.len() ==> #[trigger] is_last_of_its_cell(parsed, file_name, k)
}

/// Recording a plugin of which the store holds nothing adds one row for
/// the plugin, one row and one link for each of its worldspaces, and one
/// row and one link for each of its cells, and nothing else, where no two
/// of its worldspaces and no two of its cells are the same. The plugin
/// gets the id that was next.
pub proof fn lemma_recording_a_new_plugin(
    before: Store,
    after: Store,
    id: i32,
    source: PluginSource,
    parsed: ParsedPlugin,
    hash: i64,
    size: i64,
    file_path: Seq<char>,
    now: Timestamp,
)
    requires
        after.well_formed(),
        records_plugin(before, after, id, source, parsed, hash, size, file_path, now),
        holds_nothing_of(before, id, source, parsed, file_path),
        rows_differ(parsed, file_name_of(file_path)),
    ensures
        id == before.plugins.next_id,
        after.plugins.rows@.len() == before.plugins.rows@.len() + 1,
        after.worlds.rows@.len() == before.worlds.rows@.len() + parsed.worlds@.len(),
        after.plugin_worlds.rows@.len() == before.plugin_worlds.rows@.len() + parsed.worlds@.len(),
        after.cells.rows@.len() == before.cells.rows@.len() + parsed.cells@.len(),
        after.plugin_cells.rows@.len() == before.plugin_cells.rows@.len() + parsed.cells@.len(),
{
    let (plugin_row, world_rows, cell_rows) = choose|
        plugin_row: UnsavedPlugin,
        world_rows: Seq<world::UnsavedWorld>,
        cell_rows: Seq<cell::UnsavedCell>,
    |
        #[trigger] recorded(
            before,
            after,
            id,
            source,
            parsed,
            hash,
            size,
            file_path,
            now,
            plugin_row,
            world_rows,
            cell_rows,
        );
    let masters = strings_view(parsed.header.masters@);
    let name = file_name_of(file_path);
    lemma_recording_stores_plugin(before, after, id, source, parsed, hash, size, file_path, now);
    // The worldspaces and the links to them.
    let worlds = before.worlds.rows@;
    let db_worlds = world::returned_rows(worlds, before.worlds.next_id, world_rows, now);
    let world_links = world_links_of(db_worlds, parsed.worlds@, id);
    assert forall|k: int| 0 <= k < world_rows.len() implies world::position_of(
        worlds,
        (#[trigger] world_rows[k]).key(),
    ) is None by {
        assert(is_world_row(world_rows[k], parsed.worlds@[k], masters, name));
        world::lemma_position_of(worlds, world_rows[k].key());
        if let Some(i) = world::position_of(worlds, world_rows[k].key()) {
            assert(worlds[i].form_id == local_form_id(parsed.worlds@[k].form_id));
        }
    }
    assert forall|j: int, k: int| 0 <= j < k < world_rows.len() implies (
    #[trigger] world_rows[j]).key() != (#[trigger] world_rows[k]).key() by {
        assert(is_world_row(world_rows[j], parsed.worlds@[j], masters, name));
        assert(is_world_row(world_rows[k], parsed.worlds@[k], masters, name));
        assert(is_last_world_of_its_form(parsed, name, j));
    }
    world::lemma_batch_of_new(worlds, before.worlds.next_id, world_rows, now);
    assert forall|k: int| 0 <= k < world_links.len() implies plugin_world::position_of(
        before.plugin_worlds.rows@,
        (#[trigger] world_links[k]).key(),
    ) is None by {
        plugin_world::lemma_position_of(before.plugin_worlds.rows@, world_links[k].key());
    }
    assert forall|j: int, k: int| 0 <= j < k < world_links.len() implies (
    #[trigger] world_links[j]).key() != (#[trigger] world_links[k]).key() by {
        let a = world::returned_at(worlds, before.worlds.next_id, world_rows, now, j);
        let b = world::returned_at(worlds, before.worlds.next_id, world_rows, now, k);
        assert(db_worlds[j] == a->Ok_0 && db_worlds[k] == b->Ok_0);
    }
    plugin_world::lemma_batch_of_new(
        before.plugin_worlds.rows@,
        before.plugin_worlds.next_id,
        after.worlds.rows@,
        world_links,
        now,
    );
    // The cells and the links to them.
    let cells = before.cells.rows@;
    let db_cells = cell::returned_rows(cells, before.cells.next_id, cell_rows, CellMode::Normal, now);
    let cell_links = cell_links_of(db_cells, parsed.cells@, id, source.file_id, source.mod_id);
    assert forall|k: int| 0 <= k < cell_rows.len() implies cell::position_of(
        cells,
        (#[trigger] cell_rows[k]).key(),
    ) is None by {
        assert(is_cell_row(cell_rows[k], parsed.cells@[k], masters, name, db_worlds));
        cell::lemma_position_of(cells, cell_rows[k].key());
        if let Some(i) = cell::position_of(cells, cell_rows[k].key()) {
            assert(cells[i].form_id == local_form_id(parsed.cells@[k].form_id));
        }
    }
    assert forall|j: int, k: int| 0 <= j < k < cell_rows.len() implies (#[trigger] cell_rows[j]).key()
        != (#[trigger] cell_rows[k]).key() by {
        assert(is_cell_row(cell_rows[j], parsed.cells@[j], masters, name, db_worlds));
        assert(is_cell_row(cell_rows[k], parsed.cells@[k], masters, name, db_worlds));
        assert(is_last_of_its_cell(parsed, name, j));
        assert(!same_cell(parsed.cells@[k], parsed.cells@[j], masters, name));
        lemma_other_cell_other_key(
            before,
            after,
            parsed,
            name,
            world_rows,
            now,
            parsed.cells@[k],
            parsed.cells@[j],
            cell_rows[k],
            cell_rows[j],
        );
    }
    cell::lemma_batch_of_new(cells, before.cells.next_id, cell_rows, CellMode::Normal, now);
    assert forall|k: int| 0 <= k < cell_links.len() implies plugin_cell::position_of(
        before.plugin_cells.rows@,
        (#[trigger] cell_links[k]).key(),
    ) is None by {
        plugin_cell::lemma_position_of(before.plugin_cells.rows@, cell_links[k].key());
    }
    assert forall|j: int, k: int| 0 <= j < k < cell_links.len() implies (#[trigger] cell_links[j]).key()
        != (#[trigger] cell_links[k]).key() by {
        let a = cell::returned_at(cells, before.cells.next_id, cell_rows, CellMode::Normal, now, j);
        let b = cell::returned_at(cells, before.cells.next_id, cell_rows, CellMode::Normal, now, k);
        assert(db_cells[j] == a->Ok_0 && db_cells[k] == b->Ok_0);
    }
    plugin_cell::lemma_batch_of_new(
        before.plugin_cells.rows@,
        before.plugin_cells.next_id,
        after.cells.rows@,
        cell_links,
        now,
    );
}

/// Two cells of a plugin that are not stored as one cell have rows of
/// different keys.
proof fn lemma_other_cell_other_key(
    before: Store,
    after: Store,
    parsed: ParsedPlugin,
    name: Seq<char>,
    world_rows: Seq<world::UnsavedWorld>,
    now: Timestamp,
    a: ParsedCell,
    b: ParsedCell,
    row_a: cell::UnsavedCell,
    row_b: cell::UnsavedCell,
)
    requires
        after.well_formed(),
        are_world_rows(world_rows, parsed.worlds@, strings_view(parsed.header.masters@), name),
        world::all_written(before.worlds.rows@, before.worlds.next_id, world_rows, now),
        (after.worlds.rows@, after.worlds.next_id) == world::table_after(
            before.worlds.rows@,
            before.worlds.next_id,
            world_rows,
            now,
        ),
        ({
            let masters = strings_view(parsed.header.masters@);
            let db_worlds = world::returned_rows(
                before.worlds.rows@,
                before.worlds.next_id,
                world_rows,
                now,
            );
            &&& is_cell_row(row_a, a, masters, name, db_worlds)
            &&& is_cell_row(row_b, b, masters, name, db_worlds)
            &&& cell_world_known(a, masters, name, db_worlds)
            &&& cell_world_known(b, masters, name, db_worlds)
            &&& !same_cell(a, b, masters, name)
        }),
    ensures
        row_a.key() != row_b.key(),
{
    let masters = strings_view(parsed.header.masters@);
    lemma_names_world(before, after, parsed, name, world_rows, now, a, row_a.world_id);
    lemma_names_world(before, after, parsed, name, world_rows, now, b, row_b.world_id);
    if row_a.key() == row_b.key() {
        if let (Some(v), Some(w)) = (a.world_form_id, b.world_form_id) {
            let stored = after.worlds.rows@;
            let i = choose|i: int|
                0 <= i < stored.len() && (#[trigger] stored[i]).id == row_a.world_id->0
                    && stored[i].form_id == local_form_id(v) && stored[i].master@ == owning_master(
                    v,
                    masters,
                    name,
                );
            let j = choose|j: int|
                0 <= j < stored.len() && (#[trigger] stored[j]).id == row_b.world_id->0
                    && stored[j].form_id == local_form_id(w) && stored[j].master@ == owning_master(
                    w,
                    masters,
                    name,
                );
            if i < j {
                assert(stored[i].id != stored[j].id);
            } else if j < i {
                assert(stored[j].id != stored[i].id);
            }
        }
    }
}

} // verus!

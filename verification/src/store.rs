//! The tables that the ingestion of a plugin writes, taken together.
//!
//! This is the store as the statements of the persistence layer see it:
//! five tables, each written by key. What holds of the tables together is
//! that no link dangles: every link between a plugin and a worldspace or a
//! cell points at a stored row.

use vstd::prelude::*;
use crate::models::cell::{self, CellMode, CellTable, StoreError};
use crate::models::file::File;
use crate::models::game_mod::Mod;
use crate::models::plugin::{self, PluginTable, UnsavedPlugin};
use crate::models::plugin_cell::{self, PluginCellTable};
use crate::models::plugin_world::{self, PluginWorldTable};
use crate::models::world::{self, WorldTable};
use crate::form_id::{local_form_id, owning_master};
use crate::plugin_processor::{
    blob_path_of, cell_world_known, file_name_of, is_cell_row, is_plugin_row, is_world_row,
    lemma_world_id_of, plan_plugin, plugin_hash_of, shorter, source_of, steps_of,
    PluginPlan, PluginSteps,
    strings_view, unsaved_cells, unsaved_plugin_cells, unsaved_plugin_worlds,
    unsaved_worlds, world_id_of, ParsedCell, ParsedHeader, ParsedPlugin, ParsedWorld, PlanError,
    PluginSource,
};
use crate::time::Timestamp;

verus! {

/// The tables of plugins, worldspaces and cells, and of the links from
/// plugins to both.
#[derive(Debug, Clone, PartialEq)]
pub struct Store {
    pub plugins: PluginTable,
    pub worlds: WorldTable,
    pub cells: CellTable,
    pub plugin_worlds: PluginWorldTable,
    pub plugin_cells: PluginCellTable,
}

/// Why a plugin could not be recorded.
#[derive(Debug, Clone, Copy, PartialEq, Eq, Structural)]
pub enum IngestError {
    /// A row could not be written.
    Store(StoreError),
    /// The rows of the plugin could not be worked out.
    Plan(PlanError),
}

impl Store {
    /// Every table is well formed, and every link points at a stored row.
    pub open spec fn well_formed(self) -> bool {
        &&& self.plugins.well_formed()
        &&& self.worlds.well_formed()
        &&& self.cells.well_formed()
        &&& self.plugin_worlds.well_formed()
        &&& self.plugin_cells.well_formed()
        &&& plugin_world::references_hold(self.plugin_worlds.rows@, self.worlds.rows@)
        &&& plugin_cell::references_hold(self.plugin_cells.rows@, self.cells.rows@)
    }

    /// A store without rows, in which every table hands out the id 1
    /// first.
    pub fn new() -> (r: Store)
        ensures
            r.well_formed(),
            r.plugins.rows@.len() == 0,
            r.worlds.rows@.len() == 0,
            r.cells.rows@.len() == 0,
            r.plugin_worlds.rows@.len() == 0,
            r.plugin_cells.rows@.len() == 0,
            r.plugins.next_id == 1,
            r.worlds.next_id == 1,
            r.cells.next_id == 1,
            r.plugin_worlds.next_id == 1,
            r.plugin_cells.next_id == 1,
    {
        Store {
            plugins: PluginTable::new(),
            worlds: WorldTable::new(),
            cells: CellTable::new(),
            plugin_worlds: PluginWorldTable::new(),
            plugin_cells: PluginCellTable::new(),
        }
    }
}

/// Whether an ordinary ingestion has left the cells of the base game as
/// they were, and lost no cell.
pub open spec fn base_game_spared(before: Seq<cell::Cell>, after: Seq<cell::Cell>) -> bool {
    &&& after.len() >= before.len()
    &&& forall|i: int|
        0 <= i < before.len() && (#[trigger] before[i]).is_base_game ==> after[i] == before[i]
}

/// Whether a table that hands out `next_id` next has ids left for the
/// given number of new rows.
pub open spec fn has_room(next_id: i32, rows: nat) -> bool {
    next_id + rows <= i32::MAX
}

/// Whether every table has ids left for all that a plugin may add to it.
pub open spec fn room_for(store: Store, parsed: ParsedPlugin) -> bool {
    &&& has_room(store.plugins.next_id, 1)
    &&& has_room(store.worlds.next_id, parsed.worlds@.len())
    &&& has_room(store.plugin_worlds.next_id, parsed.worlds@.len())
    &&& has_room(store.cells.next_id, parsed.cells@.len())
    &&& has_room(store.plugin_cells.next_id, parsed.cells@.len())
}

/// Whether the plugin holds a worldspace that has the same local form id
/// and the same master as the given form id.
pub open spec fn declares_world(
    worlds: Seq<ParsedWorld>,
    masters: Seq<Seq<char>>,
    file_name: Seq<char>,
    form_id: u32,
) -> bool {
    exists|k: int|
        0 <= k < worlds.len() && local_form_id((#[trigger] worlds[k]).form_id) == local_form_id(
            form_id,
        ) && owning_master(worlds[k].form_id, masters, file_name) == owning_master(
            form_id,
            masters,
            file_name,
        )
}

/// Whether the worldspace of a cell is told: the cell is an interior
/// cell, or the plugin holds its worldspace.
pub open spec fn world_told(cell: ParsedCell, parsed: ParsedPlugin, file_name: Seq<char>) -> bool {
    cell.world_form_id matches Some(w) ==> declares_world(
        parsed.worlds@,
        strings_view(parsed.header.masters@),
        file_name,
        w,
    )
}

/// Whether the worldspace of every cell of the plugin is told.
pub open spec fn worlds_told(parsed: ParsedPlugin, file_name: Seq<char>) -> bool {
    forall|i: int|
        0 <= i < parsed.cells@.len() ==> world_told(#[trigger] parsed.cells@[i], parsed, file_name)
}

/// Whether the store holds the plugin under the given id.
pub open spec fn plugin_stored(store: Store, id: i32, file_id: i32, file_path: Seq<char>) -> bool {
    exists|i: int|
        0 <= i < store.plugins.rows@.len() && (#[trigger] store.plugins.rows@[i]).id == id
            && store.plugins.rows@[i].key() == (file_id, file_path)
}

/// Whether the store holds a worldspace of the plugin, and a link from
/// the plugin to it.
pub open spec fn world_stored(
    store: Store,
    plugin_id: i32,
    world: ParsedWorld,
    masters: Seq<Seq<char>>,
    file_name: Seq<char>,
) -> bool {
    exists|i: int|
        0 <= i < store.worlds.rows@.len() && (#[trigger] store.worlds.rows@[i]).form_id
            == local_form_id(world.form_id) && store.worlds.rows@[i].master@ == owning_master(
            world.form_id,
            masters,
            file_name,
        ) && plugin_world::key_stored(
            store.plugin_worlds.rows@,
            (plugin_id, store.worlds.rows@[i].id),
        )
}

/// Whether the store holds a cell of the plugin, as an interior cell
/// where it is one and else as an exterior cell, and a link from the
/// plugin to it.
pub open spec fn cell_stored(
    store: Store,
    plugin_id: i32,
    cell: ParsedCell,
    masters: Seq<Seq<char>>,
    file_name: Seq<char>,
) -> bool {
    exists|i: int|
        0 <= i < store.cells.rows@.len() && (#[trigger] store.cells.rows@[i]).form_id
            == local_form_id(cell.form_id) && store.cells.rows@[i].master@ == owning_master(
            cell.form_id,
            masters,
            file_name,
        ) && (store.cells.rows@[i].world_id is None <==> cell.world_form_id is None)
            && plugin_cell::key_stored(
            store.plugin_cells.rows@,
            (plugin_id, store.cells.rows@[i].id),
        )
}

/// Whether `world_id` names the worldspace of a cell: none for an
/// interior cell, and for an exterior cell the id of a stored worldspace
/// with the local form id and the master that the cell names.
pub open spec fn names_world_of(
    worlds: Seq<world::World>,
    world_id: Option<i32>,
    cell: ParsedCell,
    masters: Seq<Seq<char>>,
    file_name: Seq<char>,
) -> bool {
    match cell.world_form_id {
        None => world_id is None,
        Some(w) => world_id matches Some(id) && exists|j: int|
            0 <= j < worlds.len() && (#[trigger] worlds[j]).id == id && worlds[j].form_id
                == local_form_id(w) && worlds[j].master@ == owning_master(w, masters, file_name),
    }
}

/// Whether the store holds a cell of the plugin, in the worldspace that
/// the cell names or in none, and a link from the plugin to it.
pub open spec fn cell_held(
    store: Store,
    plugin_id: i32,
    cell: ParsedCell,
    masters: Seq<Seq<char>>,
    file_name: Seq<char>,
) -> bool {
    exists|i: int|
        0 <= i < store.cells.rows@.len() && (#[trigger] store.cells.rows@[i]).form_id
            == local_form_id(cell.form_id) && store.cells.rows@[i].master@ == owning_master(
            cell.form_id,
            masters,
            file_name,
        ) && names_world_of(
            store.worlds.rows@,
            store.cells.rows@[i].world_id,
            cell,
            masters,
            file_name,
        ) && plugin_cell::key_stored(
            store.plugin_cells.rows@,
            (plugin_id, store.cells.rows@[i].id),
        )
}

/// Whether the store holds every worldspace of the plugin, and a link
/// from the plugin to each.
pub open spec fn holds_worlds_of(
    store: Store,
    plugin_id: i32,
    parsed: ParsedPlugin,
    file_name: Seq<char>,
) -> bool {
    forall|k: int|
        0 <= k < parsed.worlds@.len() ==> world_stored(
            store,
            plugin_id,
            #[trigger] parsed.worlds@[k],
            strings_view(parsed.header.masters@),
            file_name,
        )
}

/// Whether the store holds every cell of the plugin, and a link from the
/// plugin to each.
pub open spec fn holds_cells_of(
    store: Store,
    plugin_id: i32,
    parsed: ParsedPlugin,
    file_name: Seq<char>,
) -> bool {
    forall|k: int|
        0 <= k < parsed.cells@.len() ==> cell_held(
            store,
            plugin_id,
            #[trigger] parsed.cells@[k],
            strings_view(parsed.header.masters@),
            file_name,
        )
}

/// Whether the store holds all of a plugin: the plugin itself, each of its
/// worldspaces and cells, and a link from the plugin to each. Recording
/// such a plugin needs no id.
pub open spec fn holds_all_of(
    store: Store,
    source: PluginSource,
    parsed: ParsedPlugin,
    file_path: Seq<char>,
) -> bool {
    plugin::position_of(store.plugins.rows@, (source.file_id, file_path)) matches Some(p) && {
        let id = store.plugins.rows@[p].id;
        &&& holds_worlds_of(store, id, parsed, file_name_of(file_path))
        &&& holds_cells_of(store, id, parsed, file_name_of(file_path))
    }
}

/// The rows of the worldspaces of a plugin that the store holds are
/// written without fail, and the links to the rows handed back are stored.
proof fn lemma_held_worlds_are_written(
    before: Store,
    parsed: ParsedPlugin,
    plugin_id: i32,
    name: Seq<char>,
    worlds: Seq<world::UnsavedWorld>,
    now: Timestamp,
)
    requires
        before.well_formed(),
        are_world_rows(worlds, parsed.worlds@, strings_view(parsed.header.masters@), name),
        holds_worlds_of(before, plugin_id, parsed, name),
    ensures
        world::all_written(before.worlds.rows@, before.worlds.next_id, worlds, now),
        ({
            let links = world_links_of(
                world::returned_rows(before.worlds.rows@, before.worlds.next_id, worlds, now),
                parsed.worlds@,
                plugin_id,
            );
            forall|k: int|
                0 <= k < links.len() ==> plugin_world::key_stored(
                    before.plugin_worlds.rows@,
                    (#[trigger] links[k]).key(),
                )
        }),
{
    let masters = strings_view(parsed.header.masters@);
    let rows = before.worlds.rows@;
    let next_id = before.worlds.next_id;
    assert forall|k: int| 0 <= k < worlds.len() implies world::position_of(
        rows,
        (#[trigger] worlds[k]).key(),
    ) is Some by {
        assert(is_world_row(worlds[k], parsed.worlds@[k], masters, name));
        assert(world_stored(before, plugin_id, parsed.worlds@[k], masters, name));
        world::lemma_position_of(rows, worlds[k].key());
    }
    world::lemma_batch_of_stored(rows, next_id, worlds, now);
    let db_worlds = world::returned_rows(rows, next_id, worlds, now);
    let links = world_links_of(db_worlds, parsed.worlds@, plugin_id);
    assert forall|k: int| 0 <= k < links.len() implies plugin_world::key_stored(
        before.plugin_worlds.rows@,
        (#[trigger] links[k]).key(),
    ) by {
        assert(is_world_row(worlds[k], parsed.worlds@[k], masters, name));
        assert(world_stored(before, plugin_id, parsed.worlds@[k], masters, name));
        let i = choose|i: int|
            0 <= i < rows.len() && (#[trigger] rows[i]).form_id == local_form_id(
                parsed.worlds@[k].form_id,
            ) && rows[i].master@ == owning_master(parsed.worlds@[k].form_id, masters, name)
                && plugin_world::key_stored(before.plugin_worlds.rows@, (plugin_id, rows[i].id));
        world::lemma_position_of(rows, worlds[k].key());
        let p = world::position_of(rows, worlds[k].key())->0;
        if i < p {
            assert(rows[i].key() != rows[p].key());
        } else if p < i {
            assert(rows[p].key() != rows[i].key());
        }
        assert(world::returned_at(rows, next_id, worlds, now, k) is Ok);
        assert(db_worlds[k].id == rows[p].id);
    }
}

/// The rows of the cells of a plugin that the store holds are written
/// without fail, and the links to the rows handed back are stored.
proof fn lemma_held_cells_are_written(
    before: Store,
    parsed: ParsedPlugin,
    plugin_id: i32,
    file_id: i32,
    mod_id: i32,
    name: Seq<char>,
    db_worlds: Seq<world::World>,
    cells: Seq<cell::UnsavedCell>,
    now: Timestamp,
)
    requires
        before.well_formed(),
        worlds_are_stored(db_worlds, before.worlds.rows@),
        are_cell_rows(cells, parsed.cells@, strings_view(parsed.header.masters@), name, db_worlds),
        holds_cells_of(before, plugin_id, parsed, name),
    ensures
        cell::all_written(before.cells.rows@, before.cells.next_id, cells, CellMode::Normal, now),
        ({
            let links = cell_links_of(
                cell::returned_rows(
                    before.cells.rows@,
                    before.cells.next_id,
                    cells,
                    CellMode::Normal,
                    now,
                ),
                parsed.cells@,
                plugin_id,
                file_id,
                mod_id,
            );
            forall|k: int|
                0 <= k < links.len() ==> plugin_cell::key_stored(
                    before.plugin_cells.rows@,
                    (#[trigger] links[k]).key(),
                )
        }),
{
    let masters = strings_view(parsed.header.masters@);
    let rows = before.cells.rows@;
    let next_id = before.cells.next_id;
    assert forall|k: int| 0 <= k < cells.len() implies (#[trigger] held_at(
        before,
        parsed,
        plugin_id,
        name,
        cells,
        k,
    )) by {
        lemma_held_cell_is_stored(before, parsed, plugin_id, name, db_worlds, cells, k);
    }
    assert forall|k: int| 0 <= k < cells.len() implies cell::position_of(
        rows,
        (#[trigger] cells[k]).key(),
    ) is Some by {
        assert(held_at(before, parsed, plugin_id, name, cells, k));
    }
    cell::lemma_batch_of_stored(rows, next_id, cells, CellMode::Normal, now);
    let db_cells = cell::returned_rows(rows, next_id, cells, CellMode::Normal, now);
    let links = cell_links_of(db_cells, parsed.cells@, plugin_id, file_id, mod_id);
    assert forall|k: int| 0 <= k < links.len() implies plugin_cell::key_stored(
        before.plugin_cells.rows@,
        (#[trigger] links[k]).key(),
    ) by {
        assert(held_at(before, parsed, plugin_id, name, cells, k));
        assert(cell::returned_at(rows, next_id, cells, CellMode::Normal, now, k) is Ok);
    }
}

/// Whether the row of cell number `k` of a plugin is stored, with a link
/// from the plugin to the stored row.
spec fn held_at(
    before: Store,
    parsed: ParsedPlugin,
    plugin_id: i32,
    name: Seq<char>,
    cells: Seq<cell::UnsavedCell>,
    k: int,
) -> bool {
    cell::position_of(before.cells.rows@, cells[k].key()) matches Some(p)
        && plugin_cell::key_stored(
        before.plugin_cells.rows@,
        (plugin_id, before.cells.rows@[p].id),
    )
}

/// A cell of a plugin that the store holds is stored under the key of its
/// row.
proof fn lemma_held_cell_is_stored(
    before: Store,
    parsed: ParsedPlugin,
    plugin_id: i32,
    name: Seq<char>,
    db_worlds: Seq<world::World>,
    cells: Seq<cell::UnsavedCell>,
    k: int,
)
    requires
        before.well_formed(),
        worlds_are_stored(db_worlds, before.worlds.rows@),
        are_cell_rows(cells, parsed.cells@, strings_view(parsed.header.masters@), name, db_worlds),
        holds_cells_of(before, plugin_id, parsed, name),
        0 <= k < cells.len(),
    ensures
        held_at(before, parsed, plugin_id, name, cells, k),
{
    let masters = strings_view(parsed.header.masters@);
    let rows = before.cells.rows@;
    let stored = before.worlds.rows@;
    let c = parsed.cells@[k];
    assert(is_cell_row(cells[k], c, masters, name, db_worlds));
    assert(cell_world_known(c, masters, name, db_worlds));
    assert(cell_held(before, plugin_id, c, masters, name));
    let i = choose|i: int|
        0 <= i < rows.len() && (#[trigger] rows[i]).form_id == local_form_id(c.form_id)
            && rows[i].master@ == owning_master(c.form_id, masters, name) && names_world_of(
            stored,
            rows[i].world_id,
            c,
            masters,
            name,
        ) && plugin_cell::key_stored(before.plugin_cells.rows@, (plugin_id, rows[i].id));
    if let Some(w) = c.world_form_id {
        let form_id = local_form_id(w);
        let master = owning_master(w, masters, name);
        lemma_world_id_of(db_worlds, form_id, master);
        let m = choose|m: int|
            0 <= m < db_worlds.len() && (#[trigger] db_worlds[m]).form_id == form_id
                && db_worlds[m].master@ == master && db_worlds[m].id == cells[k].world_id->0;
        assert(world::row_stored(stored, db_worlds[m].id, db_worlds[m].key()));
        let a = choose|a: int|
            0 <= a < stored.len() && (#[trigger] stored[a]).id == db_worlds[m].id
                && stored[a].key() == db_worlds[m].key();
        let b = choose|b: int|
            0 <= b < stored.len() && (#[trigger] stored[b]).id == rows[i].world_id->0
                && stored[b].form_id == form_id && stored[b].master@ == master;
        if a < b {
            assert(stored[a].key() != stored[b].key());
        } else if b < a {
            assert(stored[b].key() != stored[a].key());
        }
    }
    assert(rows[i].key() == cells[k].key());
    cell::lemma_position_of(rows, cells[k].key());
    let p = cell::position_of(rows, cells[k].key())->0;
    if i < p {
        assert(rows[i].key() != rows[p].key());
    } else if p < i {
        assert(rows[p].key() != rows[i].key());
    }
}

/// Cells that the store holds are held still when worldspaces have been
/// written.
proof fn lemma_held_cells_outlast_worlds(
    before: Store,
    after: Store,
    plugin_id: i32,
    parsed: ParsedPlugin,
    name: Seq<char>,
    world_rows: Seq<world::UnsavedWorld>,
    now: Timestamp,
)
    requires
        holds_cells_of(before, plugin_id, parsed, name),
        after.cells == before.cells,
        after.plugin_cells == before.plugin_cells,
        (after.worlds.rows@, after.worlds.next_id) == world::table_after(
            before.worlds.rows@,
            before.worlds.next_id,
            world_rows,
            now,
        ),
    ensures
        holds_cells_of(after, plugin_id, parsed, name),
{
    let masters = strings_view(parsed.header.masters@);
    world::lemma_batch_grows(before.worlds.rows@, before.worlds.next_id, world_rows, now, 0);
    assert(world_rows.subrange(0, 0) =~= Seq::<world::UnsavedWorld>::empty());
    assert forall|k: int| 0 <= k < parsed.cells@.len() implies cell_held(
        after,
        plugin_id,
        #[trigger] parsed.cells@[k],
        masters,
        name,
    ) by {
        let c = parsed.cells@[k];
        assert(cell_held(before, plugin_id, c, masters, name));
        let rows = before.cells.rows@;
        let i = choose|i: int|
            0 <= i < rows.len() && (#[trigger] rows[i]).form_id == local_form_id(c.form_id)
                && rows[i].master@ == owning_master(c.form_id, masters, name) && names_world_of(
                before.worlds.rows@,
                rows[i].world_id,
                c,
                masters,
                name,
            ) && plugin_cell::key_stored(before.plugin_cells.rows@, (plugin_id, rows[i].id));
        if let Some(w) = c.world_form_id {
            let j = choose|j: int|
                0 <= j < before.worlds.rows@.len() && (#[trigger] before.worlds.rows@[j]).id
                    == rows[i].world_id->0 && before.worlds.rows@[j].form_id == local_form_id(w)
                    && before.worlds.rows@[j].master@ == owning_master(w, masters, name);
            assert(world::is_later(before.worlds.rows@[j], after.worlds.rows@[j], now));
        }
        assert(after.cells.rows@[i] == rows[i]);
    }
}

/// The stored worldspaces that a run of writes hands back tell the
/// worldspace of a cell exactly where the plugin holds it.
proof fn lemma_known_is_told(
    db_worlds: Seq<world::World>,
    parsed: ParsedPlugin,
    file_name: Seq<char>,
    cell: ParsedCell,
)
    requires
        db_worlds.len() == parsed.worlds@.len(),
        forall|k: int|
            0 <= k < db_worlds.len() ==> (#[trigger] db_worlds[k]).form_id == local_form_id(
                parsed.worlds@[k].form_id,
            ) && db_worlds[k].master@ == owning_master(
                parsed.worlds@[k].form_id,
                strings_view(parsed.header.masters@),
                file_name,
            ),
    ensures
        cell_world_known(cell, strings_view(parsed.header.masters@), file_name, db_worlds)
            <==> world_told(cell, parsed, file_name),
{
    let masters = strings_view(parsed.header.masters@);
    if let Some(w) = cell.world_form_id {
        let form_id = local_form_id(w);
        let master = owning_master(w, masters, file_name);
        lemma_world_id_of(db_worlds, form_id, master);
        if world_id_of(db_worlds, form_id, master) is Some {
            let k = choose|k: int|
                0 <= k < db_worlds.len() && (#[trigger] db_worlds[k]).form_id == form_id
                    && db_worlds[k].master@ == master;
            assert(local_form_id(parsed.worlds@[k].form_id) == form_id);
        }
        if declares_world(parsed.worlds@, masters, file_name, w) {
            let k = choose|k: int|
                0 <= k < parsed.worlds@.len() && local_form_id(
                    (#[trigger] parsed.worlds@[k]).form_id,
                ) == form_id && owning_master(parsed.worlds@[k].form_id, masters, file_name)
                    == master;
            assert(db_worlds[k].form_id == form_id && db_worlds[k].master@ == master);
        }
    }
}

/// Whether `rows` are the rows to write for the worldspaces of a plugin,
/// one for each and in their order.
pub open spec fn are_world_rows(
    rows: Seq<world::UnsavedWorld>,
    worlds: Seq<ParsedWorld>,
    masters: Seq<Seq<char>>,
    file_name: Seq<char>,
) -> bool {
    &&& rows.len() == worlds.len()
    &&& forall|k: int|
        0 <= k < rows.len() ==> is_world_row(#[trigger] rows[k], worlds[k], masters, file_name)
}

/// Whether `rows` are the rows to write for the cells of a plugin, one for
/// each and in their order, given the stored worldspaces of the plugin,
/// among which the worldspace of every exterior cell is.
pub open spec fn are_cell_rows(
    rows: Seq<cell::UnsavedCell>,
    cells: Seq<ParsedCell>,
    masters: Seq<Seq<char>>,
    file_name: Seq<char>,
    db_worlds: Seq<world::World>,
) -> bool {
    &&& rows.len() == cells.len()
    &&& forall|k: int|
        0 <= k < rows.len() ==> is_cell_row(
            #[trigger] rows[k],
            cells[k],
            masters,
            file_name,
            db_worlds,
        ) && cell_world_known(cells[k], masters, file_name, db_worlds)
}

/// The links to write from a plugin to its worldspaces: the stored
/// worldspaces and the parsed ones paired off in order, each link with the
/// editor id of the parsed worldspace.
pub open spec fn world_links_of(
    db_worlds: Seq<world::World>,
    worlds: Seq<ParsedWorld>,
    plugin_id: i32,
) -> Seq<plugin_world::UnsavedPluginWorld> {
    Seq::new(
        shorter(db_worlds.len(), worlds.len()),
        |k: int|
            plugin_world::UnsavedPluginWorld {
                plugin_id,
                world_id: db_worlds[k].id,
                editor_id: worlds[k].editor_id,
            },
    )
}

/// The links to write from a plugin to its cells: the stored cells and the
/// parsed ones paired off in order, each link with the editor id of the
/// parsed cell and with the file and the mod of the plugin.
pub open spec fn cell_links_of(
    db_cells: Seq<cell::Cell>,
    cells: Seq<ParsedCell>,
    plugin_id: i32,
    file_id: i32,
    mod_id: i32,
) -> Seq<plugin_cell::UnsavedPluginCell> {
    Seq::new(
        shorter(db_cells.len(), cells.len()),
        |k: int|
            plugin_cell::UnsavedPluginCell {
                plugin_id,
                cell_id: db_cells[k].id,
                file_id,
                mod_id,
                editor_id: cells[k].editor_id,
            },
    )
}

/// Whether the tables of plugins, worldspaces and links to worldspaces of
/// `after` are those that recording a plugin leaves of `before`, with `id`
/// the id of the plugin.
///
/// The table of plugins is written with the row of the plugin. The table
/// of worldspaces is written with the rows of its worldspaces, one after
/// the other, and the table of their links with one link for each row
/// handed back. Every one of these writes succeeds.
pub open spec fn recorded_worlds(
    before: Store,
    after: Store,
    id: i32,
    source: PluginSource,
    parsed: ParsedPlugin,
    hash: i64,
    size: i64,
    file_path: Seq<char>,
    now: Timestamp,
    plugin_row: UnsavedPlugin,
    world_rows: Seq<world::UnsavedWorld>,
) -> bool {
    let masters = strings_view(parsed.header.masters@);
    let name = file_name_of(file_path);
    let db_worlds = world::returned_rows(
        before.worlds.rows@,
        before.worlds.next_id,
        world_rows,
        now,
    );
    &&& is_plugin_row(plugin_row, source, parsed.header, hash, size, file_path)
    &&& after.plugins.rows@ == plugin::rows_after(
        before.plugins.rows@,
        before.plugins.next_id,
        plugin_row,
        now,
    )
    &&& after.plugins.next_id == plugin::next_id_after(
        before.plugins.rows@,
        before.plugins.next_id,
        plugin_row,
    )
    &&& plugin::id_returned(before.plugins.rows@, before.plugins.next_id, plugin_row) == Ok::<
        i32,
        StoreError,
    >(id)
    &&& are_world_rows(world_rows, parsed.worlds@, masters, name)
    &&& (after.worlds.rows@, after.worlds.next_id) == world::table_after(
        before.worlds.rows@,
        before.worlds.next_id,
        world_rows,
        now,
    )
    &&& (after.plugin_worlds.rows@, after.plugin_worlds.next_id) == plugin_world::table_after(
        before.plugin_worlds.rows@,
        before.plugin_worlds.next_id,
        after.worlds.rows@,
        world_links_of(db_worlds, parsed.worlds@, id),
        now,
    )
    &&& world::all_written(before.worlds.rows@, before.worlds.next_id, world_rows, now)
    &&& plugin_world::all_written(
        before.plugin_worlds.rows@,
        before.plugin_worlds.next_id,
        after.worlds.rows@,
        world_links_of(db_worlds, parsed.worlds@, id),
        now,
    )
}

/// Whether `after` is the store that recording a plugin leaves of
/// `before`, with `id` the id of the plugin.
///
/// The plugin, its worldspaces and the links to them are written as
/// `recorded_worlds` says. The table of cells is written with the rows of
/// the cells, as an ordinary ingestion writes them, and the table of their
/// links with one link for each row handed back. Every one of these writes
/// succeeds, and nothing else is written.
pub open spec fn recorded(
    before: Store,
    after: Store,
    id: i32,
    source: PluginSource,
    parsed: ParsedPlugin,
    hash: i64,
    size: i64,
    file_path: Seq<char>,
    now: Timestamp,
    plugin_row: UnsavedPlugin,
    world_rows: Seq<world::UnsavedWorld>,
    cell_rows: Seq<cell::UnsavedCell>,
) -> bool {
    let masters = strings_view(parsed.header.masters@);
    let name = file_name_of(file_path);
    let db_worlds = world::returned_rows(
        before.worlds.rows@,
        before.worlds.next_id,
        world_rows,
        now,
    );
    let db_cells = cell::returned_rows(
        before.cells.rows@,
        before.cells.next_id,
        cell_rows,
        CellMode::Normal,
        now,
    );
    &&& recorded_worlds(
        before,
        after,
        id,
        source,
        parsed,
        hash,
        size,
        file_path,
        now,
        plugin_row,
        world_rows,
    )
    &&& are_cell_rows(cell_rows, parsed.cells@, masters, name, db_worlds)
    &&& (after.cells.rows@, after.cells.next_id) == cell::table_after(
        before.cells.rows@,
        before.cells.next_id,
        cell_rows,
        CellMode::Normal,
        now,
    )
    &&& (after.plugin_cells.rows@, after.plugin_cells.next_id) == plugin_cell::table_after(
        before.plugin_cells.rows@,
        before.plugin_cells.next_id,
        after.cells.rows@,
        cell_links_of(db_cells, parsed.cells@, id, source.file_id, source.mod_id),
        now,
    )
    &&& cell::all_written(
        before.cells.rows@,
        before.cells.next_id,
        cell_rows,
        CellMode::Normal,
        now,
    )
    &&& plugin_cell::all_written(
        before.plugin_cells.rows@,
        before.plugin_cells.next_id,
        after.cells.rows@,
        cell_links_of(db_cells, parsed.cells@, id, source.file_id, source.mod_id),
        now,
    )
}

/// Whether `after` is the store that a recording leaves of `before` where
/// it ends before the cells are written: the plugin, its worldspaces and
/// the links to them are written as `recorded_worlds` says, and the tables
/// of cells and of links to cells are as they were.
pub open spec fn records_until_cells(
    before: Store,
    after: Store,
    source: PluginSource,
    parsed: ParsedPlugin,
    hash: i64,
    size: i64,
    file_path: Seq<char>,
    now: Timestamp,
) -> bool {
    &&& after.cells == before.cells
    &&& after.plugin_cells == before.plugin_cells
    &&& exists|id: i32, plugin_row: UnsavedPlugin, world_rows: Seq<world::UnsavedWorld>|
        #[trigger] recorded_worlds(
            before,
            after,
            id,
            source,
            parsed,
            hash,
            size,
            file_path,
            now,
            plugin_row,
            world_rows,
        )
}

/// Whether `after` is the store that recording a plugin leaves of
/// `before`: there are rows for the plugin, its worldspaces and its cells,
/// as the plugin describes them, with which `after` is what the writes of
/// these rows and of the links to them make of `before`. The rows are
/// fixed by the plugin up to the texts in them, of which the characters
/// are fixed.
pub open spec fn records_plugin(
    before: Store,
    after: Store,
    id: i32,
    source: PluginSource,
    parsed: ParsedPlugin,
    hash: i64,
    size: i64,
    file_path: Seq<char>,
    now: Timestamp,
) -> bool {
    exists|
        plugin_row: UnsavedPlugin,
        world_rows: Seq<world::UnsavedWorld>,
        cell_rows: Seq<cell::UnsavedCell>,
    |
        #[trigger] recorded(
            before,
            after,
            id,
            source,
            parsed,
            hash,
            size,
            file_path,
            now,
            plugin_row,
            world_rows,
            cell_rows,
        )
}

/// Whether the stored worldspaces handed back for the worldspaces of a
/// plugin are theirs: one for each, in order, each with the local form id
/// and the master of its worldspace.
pub open spec fn rows_of_worlds(
    db_worlds: Seq<world::World>,
    parsed: ParsedPlugin,
    file_name: Seq<char>,
) -> bool {
    &&& db_worlds.len() == parsed.worlds@.len()
    &&& forall|k: int|
        0 <= k < db_worlds.len() ==> (#[trigger] db_worlds[k]).form_id == local_form_id(
            parsed.worlds@[k].form_id,
        ) && db_worlds[k].master@ == owning_master(
            parsed.worlds@[k].form_id,
            strings_view(parsed.header.masters@),
            file_name,
        )
}

/// Whether every worldspace handed back is stored as it was handed back,
/// by id and key.
pub open spec fn worlds_are_stored(db_worlds: Seq<world::World>, stored: Seq<world::World>) -> bool {
    forall|k: int|
        0 <= k < db_worlds.len() ==> world::row_stored(
            stored,
            (#[trigger] db_worlds[k]).id,
            db_worlds[k].key(),
        )
}

/// Whether the store holds a link from the plugin to the row with the
/// given id, for every row handed back.
pub open spec fn worlds_are_linked(
    links: Seq<plugin_world::PluginWorld>,
    plugin_id: i32,
    db_worlds: Seq<world::World>,
) -> bool {
    forall|k: int|
        0 <= k < db_worlds.len() ==> plugin_world::key_stored(
            links,
            (plugin_id, (#[trigger] db_worlds[k]).id),
        )
}

/// Writes the worldspaces of a plugin and the links to them.
fn record_worlds(store: &mut Store, parsed: &ParsedPlugin, plugin_id: i32, file_name: &str, now: Timestamp)
    -> (r: Result<(Vec<world::World>, Ghost<Seq<world::UnsavedWorld>>), StoreError>)
    requires
        old(store).well_formed(),
    ensures
        final(store).well_formed(),
        final(store).plugins == old(store).plugins,
        final(store).cells == old(store).cells,
        final(store).plugin_cells == old(store).plugin_cells,
        final(store).worlds.rows@.len() >= old(store).worlds.rows@.len(),
        final(store).plugin_worlds.rows@.len() >= old(store).plugin_worlds.rows@.len(),
        has_room(old(store).worlds.next_id, parsed.worlds@.len()) && has_room(
            old(store).plugin_worlds.next_id,
            parsed.worlds@.len(),
        ) ==> r is Ok,
        r matches Err(e) ==> e == StoreError::IdsExhausted && !(has_room(
            old(store).worlds.next_id,
            parsed.worlds@.len(),
        ) && has_room(old(store).plugin_worlds.next_id, parsed.worlds@.len())),
        holds_worlds_of(*old(store), plugin_id, *parsed, file_name@) ==> r is Ok,
        r matches Ok((db_worlds, rows)) ==> {
            &&& rows_of_worlds(db_worlds@, *parsed, file_name@)
            &&& worlds_are_stored(db_worlds@, final(store).worlds.rows@)
            &&& worlds_are_linked(final(store).plugin_worlds.rows@, plugin_id, db_worlds@)
            &&& are_world_rows(
                rows@,
                parsed.worlds@,
                strings_view(parsed.header.masters@),
                file_name@,
            )
            &&& (final(store).worlds.rows@, final(store).worlds.next_id) == world::table_after(
                old(store).worlds.rows@,
                old(store).worlds.next_id,
                rows@,
                now,
            )
            &&& db_worlds@ == world::returned_rows(
                old(store).worlds.rows@,
                old(store).worlds.next_id,
                rows@,
                now,
            )
            &&& (final(store).plugin_worlds.rows@, final(store).plugin_worlds.next_id)
                == plugin_world::table_after(
                old(store).plugin_worlds.rows@,
                old(store).plugin_worlds.next_id,
                final(store).worlds.rows@,
                world_links_of(db_worlds@, parsed.worlds@, plugin_id),
                now,
            )
            &&& world::all_written(
                old(store).worlds.rows@,
                old(store).worlds.next_id,
                rows@,
                now,
            )
            &&& plugin_world::all_written(
                old(store).plugin_worlds.rows@,
                old(store).plugin_worlds.next_id,
                final(store).worlds.rows@,
                world_links_of(db_worlds@, parsed.worlds@, plugin_id),
                now,
            )
        },
{
    let ghost masters = strings_view(parsed.header.masters@);
    let worlds = unsaved_worlds(&parsed.worlds, &parsed.header.masters, file_name);
    let ghost worlds_before = store.worlds.rows@;
    let ghost world_id_before = store.worlds.next_id;
    let written_worlds = world::batched_insert(&mut store.worlds, &worlds, now);
    proof {
        let k = if written_worlds is Ok {
            worlds@.len() as int
        } else {
            choose|k: int|
                0 <= k < worlds@.len() && (store.worlds.rows@, store.worlds.next_id)
                    == #[trigger] world::table_after(
                    worlds_before,
                    world_id_before,
                    worlds@.subrange(0, k),
                    now,
                )
        };
        assert(worlds@.subrange(0, worlds@.len() as int) =~= worlds@);
        world::lemma_batch_keeps_well_formed(
            worlds_before,
            world_id_before,
            worlds@.subrange(0, k),
            now,
        );
        plugin_world::lemma_references_outlast_growth(
            store.plugin_worlds.rows@,
            worlds_before,
            store.worlds.rows@,
        );
        if written_worlds is Err && holds_worlds_of(*old(store), plugin_id, *parsed, file_name@) {
            lemma_held_worlds_are_written(*old(store), *parsed, plugin_id, file_name@, worlds@, now);
            let f = choose|f: int|
                0 <= f < worlds@.len() && (store.worlds.rows@, store.worlds.next_id)
                    == #[trigger] world::table_after(
                    worlds_before,
                    world_id_before,
                    worlds@.subrange(0, f),
                    now,
                ) && world::returned_at(worlds_before, world_id_before, worlds@, now, f) is Err;
            assert(world::returned_at(worlds_before, world_id_before, worlds@, now, f) is Ok);
        }
        if written_worlds is Err {
            if has_room(world_id_before, worlds@.len()) {
                let f = choose|f: int|
                    0 <= f < worlds@.len() && (store.worlds.rows@, store.worlds.next_id)
                        == #[trigger] world::table_after(
                        worlds_before,
                        world_id_before,
                        worlds@.subrange(0, f),
                        now,
                    ) && world::returned_at(worlds_before, world_id_before, worlds@, now, f)
                        is Err;
                world::lemma_batch_has_room(worlds_before, world_id_before, worlds@, now, f);
            }
        }
    }
    let db_worlds = match written_worlds {
        Ok(rows) => rows,
        Err(e) => {
            return Err(e);
        },
    };
    let ghost stored_worlds = store.worlds.rows@;
    proof {
        assert forall|k: int| 0 <= k < db_worlds@.len() implies (#[trigger] db_worlds@[k]).form_id
            == local_form_id(parsed.worlds@[k].form_id) && db_worlds@[k].master@ == owning_master(
            parsed.worlds@[k].form_id,
            masters,
            file_name@,
        ) && world::row_stored(stored_worlds, db_worlds@[k].id, db_worlds@[k].key()) by {
            world::lemma_batch_rows_stored(worlds_before, world_id_before, worlds@, now, k);
            assert(world::returns_row(
                worlds_before,
                world_id_before,
                worlds@,
                now,
                k,
                db_worlds@[k],
            ));
            assert(is_world_row(worlds@[k], parsed.worlds@[k], masters, file_name@));
        }
    }

    proof {
        assert(db_worlds@ =~= world::returned_rows(worlds_before, world_id_before, worlds@, now))
            by {
            assert forall|k: int| 0 <= k < db_worlds@.len() implies db_worlds@[k]
                == world::returned_rows(worlds_before, world_id_before, worlds@, now)[k] by {
                assert(world::returns_row(
                    worlds_before,
                    world_id_before,
                    worlds@,
                    now,
                    k,
                    db_worlds@[k],
                ));
            }
        }
    }
    proof {
        assert forall|k: int| 0 <= k < worlds@.len() implies (#[trigger] world::returned_at(
            worlds_before,
            world_id_before,
            worlds@,
            now,
            k,
        )) is Ok by {
            assert(world::returns_row(
                worlds_before,
                world_id_before,
                worlds@,
                now,
                k,
                db_worlds@[k],
            ));
        }
    }
    let links = unsaved_plugin_worlds(&db_worlds, &parsed.worlds, plugin_id);
    proof {
        assert(links@ =~= world_links_of(db_worlds@, parsed.worlds@, plugin_id));
    }
    let ghost links_before = store.plugin_worlds.rows@;
    let ghost link_id_before = store.plugin_worlds.next_id;
    let written_links = plugin_world::batched_insert(
        &mut store.plugin_worlds,
        &store.worlds.rows,
        &links,
        now,
    );
    proof {
        let k = if written_links is Ok {
            links@.len() as int
        } else {
            choose|k: int|
                0 <= k < links@.len() && (store.plugin_worlds.rows@, store.plugin_worlds.next_id)
                    == #[trigger] plugin_world::table_after(
                    links_before,
                    link_id_before,
                    stored_worlds,
                    links@.subrange(0, k),
                    now,
                )
        };
        assert(links@.subrange(0, links@.len() as int) =~= links@);
        plugin_world::lemma_batch_keeps_well_formed(
            links_before,
            link_id_before,
            stored_worlds,
            links@.subrange(0, k),
            now,
        );
        assert forall|i: int| 0 <= i < links@.len() implies plugin_world::world_exists(
            stored_worlds,
            (#[trigger] links@[i]).world_id,
        ) by {
            assert(world::row_stored(stored_worlds, db_worlds@[i].id, db_worlds@[i].key()));
            let j = choose|j: int|
                0 <= j < stored_worlds.len() && (#[trigger] stored_worlds[j]).id
                    == db_worlds@[i].id && stored_worlds[j].key() == db_worlds@[i].key();
            assert(stored_worlds[j].id == links@[i].world_id);
        }
        if let Err(e) = written_links {
            let f = choose|f: int|
                0 <= f < links@.len() && (store.plugin_worlds.rows@, store.plugin_worlds.next_id)
                    == #[trigger] plugin_world::table_after(
                    links_before,
                    link_id_before,
                    stored_worlds,
                    links@.subrange(0, f),
                    now,
                ) && plugin_world::fails_at(
                    links_before,
                    link_id_before,
                    stored_worlds,
                    links@,
                    now,
                    f,
                    e,
                );
            assert(plugin_world::world_exists(stored_worlds, links@[f].world_id));
            if holds_worlds_of(*old(store), plugin_id, *parsed, file_name@) {
                lemma_held_worlds_are_written(
                    *old(store),
                    *parsed,
                    plugin_id,
                    file_name@,
                    worlds@,
                    now,
                );
                plugin_world::lemma_batch_of_stored(
                    links_before,
                    link_id_before,
                    stored_worlds,
                    links@,
                    now,
                );
                assert(plugin_world::written_at(
                    links_before,
                    link_id_before,
                    stored_worlds,
                    links@,
                    now,
                    f,
                ));
            }
            if has_room(link_id_before, links@.len()) {
                plugin_world::lemma_batch_has_room(
                    links_before,
                    link_id_before,
                    stored_worlds,
                    links@,
                    now,
                    f,
                    e,
                );
            }
        } else {
            assert forall|i: int| 0 <= i < db_worlds@.len() implies plugin_world::key_stored(
                store.plugin_worlds.rows@,
                (plugin_id, (#[trigger] db_worlds@[i]).id),
            ) by {
                plugin_world::lemma_batch_rows_stored(
                    links_before,
                    link_id_before,
                    stored_worlds,
                    links@,
                    now,
                    i,
                );
                assert(plugin_world::returns_row(
                    links_before,
                    link_id_before,
                    stored_worlds,
                    links@,
                    now,
                    i,
                    written_links->Ok_0@[i],
                ));
                assert(links@[i].key() == (plugin_id, db_worlds@[i].id));
            }
            assert forall|i: int| 0 <= i < links@.len() implies #[trigger] plugin_world::written_at(
                links_before,
                link_id_before,
                stored_worlds,
                links@,
                now,
                i,
            ) by {
                assert(plugin_world::returns_row(
                    links_before,
                    link_id_before,
                    stored_worlds,
                    links@,
                    now,
                    i,
                    written_links->Ok_0@[i],
                ));
            }
        }
    }
    match written_links {
        Ok(_) => Ok((db_worlds, Ghost(worlds@))),
        Err(e) => Err(e),
    }
}

/// Whether every row handed back for a cell is stored under its id and
/// under the key of the cell.
pub open spec fn cells_are_stored(
    db_cells: Seq<cell::Cell>,
    rows: Seq<cell::UnsavedCell>,
    stored: Seq<cell::Cell>,
) -> bool {
    &&& db_cells.len() == rows.len()
    &&& forall|k: int|
        0 <= k < db_cells.len() ==> cell::row_stored(
            stored,
            (#[trigger] db_cells[k]).id,
            rows[k].key(),
        )
}

/// Whether the store holds a link from the plugin to the row with the
/// given id, for every row handed back.
pub open spec fn cells_are_linked(
    links: Seq<plugin_cell::PluginCell>,
    plugin_id: i32,
    db_cells: Seq<cell::Cell>,
) -> bool {
    forall|k: int|
        0 <= k < db_cells.len() ==> plugin_cell::key_stored(
            links,
            (plugin_id, (#[trigger] db_cells[k]).id),
        )
}

/// Writes the rows of the cells of a plugin, as an ordinary ingestion
/// does.
fn write_cells(store: &mut Store, cells: &Vec<cell::UnsavedCell>, now: Timestamp) -> (r: Result<
    Vec<cell::Cell>,
    StoreError,
>)
    requires
        old(store).well_formed(),
    ensures
        final(store).well_formed(),
        final(store).plugins == old(store).plugins,
        final(store).worlds == old(store).worlds,
        final(store).plugin_worlds == old(store).plugin_worlds,
        final(store).plugin_cells == old(store).plugin_cells,
        base_game_spared(old(store).cells.rows@, final(store).cells.rows@),
        has_room(old(store).cells.next_id, cells@.len()) ==> r is Ok,
        r matches Err(e) ==> e == StoreError::IdsExhausted && !has_room(
            old(store).cells.next_id,
            cells@.len(),
        ),
        cell::all_written(
            old(store).cells.rows@,
            old(store).cells.next_id,
            cells@,
            CellMode::Normal,
            now,
        ) ==> r is Ok,
        r matches Ok(db_cells) ==> {
            &&& cells_are_stored(db_cells@, cells@, final(store).cells.rows@)
            &&& (final(store).cells.rows@, final(store).cells.next_id) == cell::table_after(
                old(store).cells.rows@,
                old(store).cells.next_id,
                cells@,
                CellMode::Normal,
                now,
            )
            &&& db_cells@ == cell::returned_rows(
                old(store).cells.rows@,
                old(store).cells.next_id,
                cells@,
                CellMode::Normal,
                now,
            )
            &&& cell::all_written(
                old(store).cells.rows@,
                old(store).cells.next_id,
                cells@,
                CellMode::Normal,
                now,
            )
        },
{
    let ghost cells_before = store.cells.rows@;
    let ghost cell_id_before = store.cells.next_id;
    let written_cells = cell::batched_insert(&mut store.cells, cells, CellMode::Normal, now);
    proof {
        let k = if written_cells is Ok {
            cells@.len() as int
        } else {
            choose|k: int|
                0 <= k < cells@.len() && (store.cells.rows@, store.cells.next_id)
                    == #[trigger] cell::table_after(
                    cells_before,
                    cell_id_before,
                    cells@.subrange(0, k),
                    CellMode::Normal,
                    now,
                )
        };
        assert(cells@.subrange(0, cells@.len() as int) =~= cells@);
        let written = cells@.subrange(0, k);
        cell::lemma_batch_keeps_well_formed(
            cells_before,
            cell_id_before,
            written,
            CellMode::Normal,
            now,
        );
        cell::lemma_batch_keeps_ids(cells_before, cell_id_before, written, CellMode::Normal, now);
        cell::lemma_batch_spares_base_game(cells_before, cell_id_before, written, now);
        plugin_cell::lemma_references_outlast_growth(
            store.plugin_cells.rows@,
            cells_before,
            store.cells.rows@,
        );
        if let Err(e) = written_cells {
            let f = choose|f: int|
                0 <= f < cells@.len() && (store.cells.rows@, store.cells.next_id)
                    == #[trigger] cell::table_after(
                    cells_before,
                    cell_id_before,
                    cells@.subrange(0, f),
                    CellMode::Normal,
                    now,
                ) && cell::returned_at(
                    cells_before,
                    cell_id_before,
                    cells@,
                    CellMode::Normal,
                    now,
                    f,
                ) == Err::<cell::Cell, StoreError>(e);
            if has_room(cell_id_before, cells@.len()) {
                cell::lemma_batch_has_room(
                    cells_before,
                    cell_id_before,
                    cells@,
                    CellMode::Normal,
                    now,
                    f,
                );
            }
            assert(e == StoreError::IdsExhausted);
        }
    }
    let db_cells = match written_cells {
        Ok(rows) => rows,
        Err(e) => {
            return Err(e);
        },
    };
    proof {
        assert(db_cells@ =~= cell::returned_rows(
            cells_before,
            cell_id_before,
            cells@,
            CellMode::Normal,
            now,
        )) by {
            assert forall|k: int| 0 <= k < db_cells@.len() implies db_cells@[k]
                == cell::returned_rows(cells_before, cell_id_before, cells@, CellMode::Normal, now)[k] by {
                assert(cell::returns_row(
                    cells_before,
                    cell_id_before,
                    cells@,
                    CellMode::Normal,
                    now,
                    k,
                    db_cells@[k],
                ));
            }
        }
        let stored_cells = store.cells.rows@;
        assert forall|k: int| 0 <= k < db_cells@.len() implies cell::row_stored(
            stored_cells,
            (#[trigger] db_cells@[k]).id,
            cells@[k].key(),
        ) by {
            cell::lemma_batch_rows_stored(
                cells_before,
                cell_id_before,
                cells@,
                CellMode::Normal,
                now,
                k,
            );
            assert(cell::returns_row(
                cells_before,
                cell_id_before,
                cells@,
                CellMode::Normal,
                now,
                k,
                db_cells@[k],
            ));
        }
        assert forall|k: int| 0 <= k < cells@.len() implies (#[trigger] cell::returned_at(
            cells_before,
            cell_id_before,
            cells@,
            CellMode::Normal,
            now,
            k,
        )) is Ok by {
            assert(cell::returns_row(
                cells_before,
                cell_id_before,
                cells@,
                CellMode::Normal,
                now,
                k,
                db_cells@[k],
            ));
        }
    }
    Ok(db_cells)
}

/// Writes the links from a plugin to its cells.
fn write_cell_links(
    store: &mut Store,
    db_cells: &Vec<cell::Cell>,
    parsed: &ParsedPlugin,
    plugin_id: i32,
    source: &PluginSource,
    now: Timestamp,
) -> (r: Result<(), StoreError>)
    requires
        old(store).well_formed(),
        db_cells@.len() == parsed.cells@.len(),
        forall|k: int|
            0 <= k < db_cells@.len() ==> cell::id_stored(
                old(store).cells.rows@,
                (#[trigger] db_cells@[k]).id,
            ),
    ensures
        final(store).well_formed(),
        final(store).plugins == old(store).plugins,
        final(store).worlds == old(store).worlds,
        final(store).plugin_worlds == old(store).plugin_worlds,
        final(store).cells == old(store).cells,
        final(store).plugin_cells.rows@.len() >= old(store).plugin_cells.rows@.len(),
        has_room(old(store).plugin_cells.next_id, parsed.cells@.len()) ==> r is Ok,
        r matches Err(e) ==> e == StoreError::IdsExhausted && !has_room(
            old(store).plugin_cells.next_id,
            parsed.cells@.len(),
        ),
        plugin_cell::all_written(
            old(store).plugin_cells.rows@,
            old(store).plugin_cells.next_id,
            old(store).cells.rows@,
            cell_links_of(db_cells@, parsed.cells@, plugin_id, source.file_id, source.mod_id),
            now,
        ) ==> r is Ok,
        r is Ok ==> cells_are_linked(final(store).plugin_cells.rows@, plugin_id, db_cells@),
        r is Ok ==> (final(store).plugin_cells.rows@, final(store).plugin_cells.next_id)
            == plugin_cell::table_after(
            old(store).plugin_cells.rows@,
            old(store).plugin_cells.next_id,
            old(store).cells.rows@,
            cell_links_of(db_cells@, parsed.cells@, plugin_id, source.file_id, source.mod_id),
            now,
        ),
        r is Ok ==> plugin_cell::all_written(
            old(store).plugin_cells.rows@,
            old(store).plugin_cells.next_id,
            old(store).cells.rows@,
            cell_links_of(db_cells@, parsed.cells@, plugin_id, source.file_id, source.mod_id),
            now,
        ),
{
    let links = unsaved_plugin_cells(
        db_cells,
        &parsed.cells,
        plugin_id,
        source.file_id,
        source.mod_id,
    );
    proof {
        assert(links@ =~= cell_links_of(
            db_cells@,
            parsed.cells@,
            plugin_id,
            source.file_id,
            source.mod_id,
        ));
    }
    let ghost stored_cells = store.cells.rows@;
    let ghost links_before = store.plugin_cells.rows@;
    let ghost link_id_before = store.plugin_cells.next_id;
    let written_links = plugin_cell::batched_insert(
        &mut store.plugin_cells,
        &store.cells.rows,
        &links,
        now,
    );
    proof {
        let k = if written_links is Ok {
            links@.len() as int
        } else {
            choose|k: int|
                0 <= k < links@.len() && (store.plugin_cells.rows@, store.plugin_cells.next_id)
                    == #[trigger] plugin_cell::table_after(
                    links_before,
                    link_id_before,
                    stored_cells,
                    links@.subrange(0, k),
                    now,
                )
        };
        assert(links@.subrange(0, links@.len() as int) =~= links@);
        plugin_cell::lemma_batch_keeps_well_formed(
            links_before,
            link_id_before,
            stored_cells,
            links@.subrange(0, k),
            now,
        );
        assert forall|i: int| 0 <= i < links@.len() implies plugin_cell::cell_exists(
            stored_cells,
            (#[trigger] links@[i]).cell_id,
        ) by {
            assert(cell::id_stored(stored_cells, db_cells@[i].id));
            let j = choose|j: int|
                0 <= j < stored_cells.len() && (#[trigger] stored_cells[j]).id == db_cells@[i].id;
            assert(stored_cells[j].id == links@[i].cell_id);
        }
        if let Err(e) = written_links {
            let f = choose|f: int|
                0 <= f < links@.len() && (store.plugin_cells.rows@, store.plugin_cells.next_id)
                    == #[trigger] plugin_cell::table_after(
                    links_before,
                    link_id_before,
                    stored_cells,
                    links@.subrange(0, f),
                    now,
                ) && plugin_cell::fails_at(
                    links_before,
                    link_id_before,
                    stored_cells,
                    links@,
                    now,
                    f,
                    e,
                );
            assert(plugin_cell::cell_exists(stored_cells, links@[f].cell_id));
            if plugin_cell::all_written(links_before, link_id_before, stored_cells, links@, now) {
                assert(plugin_cell::written_at(
                    links_before,
                    link_id_before,
                    stored_cells,
                    links@,
                    now,
                    f,
                ));
            }
            if has_room(link_id_before, links@.len()) {
                plugin_cell::lemma_batch_has_room(
                    links_before,
                    link_id_before,
                    stored_cells,
                    links@,
                    now,
                    f,
                    e,
                );
            }
        } else {
            assert forall|i: int| 0 <= i < db_cells@.len() implies plugin_cell::key_stored(
                store.plugin_cells.rows@,
                (plugin_id, (#[trigger] db_cells@[i]).id),
            ) by {
                plugin_cell::lemma_batch_rows_stored(
                    links_before,
                    link_id_before,
                    stored_cells,
                    links@,
                    now,
                    i,
                );
                assert(plugin_cell::returns_row(
                    links_before,
                    link_id_before,
                    stored_cells,
                    links@,
                    now,
                    i,
                    written_links->Ok_0@[i],
                ));
                assert(links@[i].key() == (plugin_id, db_cells@[i].id));
            }
            assert forall|i: int| 0 <= i < links@.len() implies #[trigger] plugin_cell::written_at(
                links_before,
                link_id_before,
                stored_cells,
                links@,
                now,
                i,
            ) by {
                assert(plugin_cell::returns_row(
                    links_before,
                    link_id_before,
                    stored_cells,
                    links@,
                    now,
                    i,
                    written_links->Ok_0@[i],
                ));
            }
        }
    }
    match written_links {
        Ok(_) => Ok(()),
        Err(e) => Err(e),
    }
}

/// Writes the cells of a plugin and the links to them.
fn record_cells(
    store: &mut Store,
    parsed: &ParsedPlugin,
    db_worlds: &Vec<world::World>,
    plugin_id: i32,
    source: &PluginSource,
    file_name: &str,
    now: Timestamp,
) -> (r: Result<Ghost<Seq<cell::UnsavedCell>>, IngestError>)
    requires
        old(store).well_formed(),
        rows_of_worlds(db_worlds@, *parsed, file_name@),
        worlds_are_stored(db_worlds@, old(store).worlds.rows@),
    ensures
        worlds_told(*parsed, file_name@) && holds_cells_of(
            *old(store),
            plugin_id,
            *parsed,
            file_name@,
        ) ==> r is Ok,
        r matches Err(IngestError::Store(_)) ==> worlds_told(*parsed, file_name@),
        final(store).well_formed(),
        final(store).plugins == old(store).plugins,
        final(store).worlds == old(store).worlds,
        final(store).plugin_worlds == old(store).plugin_worlds,
        base_game_spared(old(store).cells.rows@, final(store).cells.rows@),
        final(store).plugin_cells.rows@.len() >= old(store).plugin_cells.rows@.len(),
        has_room(old(store).cells.next_id, parsed.cells@.len()) && has_room(
            old(store).plugin_cells.next_id,
            parsed.cells@.len(),
        ) && worlds_told(*parsed, file_name@) ==> r is Ok,
        r matches Err(IngestError::Store(e)) ==> e == StoreError::IdsExhausted && !(has_room(
            old(store).cells.next_id,
            parsed.cells@.len(),
        ) && has_room(old(store).plugin_cells.next_id, parsed.cells@.len())),
        r matches Err(IngestError::Plan(PlanError::UnknownWorld { cell_index })) ==> cell_index
            < parsed.cells@.len() && !world_told(
            parsed.cells@[cell_index as int],
            *parsed,
            file_name@,
        ) && forall|j: int|
            0 <= j < cell_index ==> world_told(#[trigger] parsed.cells@[j], *parsed, file_name@),
        r matches Err(IngestError::Plan(_)) ==> final(store).cells == old(store).cells,
        r matches Err(IngestError::Plan(_)) ==> final(store).plugin_cells == old(
            store,
        ).plugin_cells,
        r is Ok ==> worlds_told(*parsed, file_name@),
        r is Ok ==> forall|k: int|
            0 <= k < parsed.cells@.len() ==> cell_stored(
                *final(store),
                plugin_id,
                #[trigger] parsed.cells@[k],
                strings_view(parsed.header.masters@),
                file_name@,
            ),
        r matches Ok(rows) ==> {
            &&& are_cell_rows(
                rows@,
                parsed.cells@,
                strings_view(parsed.header.masters@),
                file_name@,
                db_worlds@,
            )
            &&& (final(store).cells.rows@, final(store).cells.next_id) == cell::table_after(
                old(store).cells.rows@,
                old(store).cells.next_id,
                rows@,
                CellMode::Normal,
                now,
            )
            &&& (final(store).plugin_cells.rows@, final(store).plugin_cells.next_id)
                == plugin_cell::table_after(
                old(store).plugin_cells.rows@,
                old(store).plugin_cells.next_id,
                final(store).cells.rows@,
                cell_links_of(
                    cell::returned_rows(
                        old(store).cells.rows@,
                        old(store).cells.next_id,
                        rows@,
                        CellMode::Normal,
                        now,
                    ),
                    parsed.cells@,
                    plugin_id,
                    source.file_id,
                    source.mod_id,
                ),
                now,
            )
            &&& cell::all_written(
                old(store).cells.rows@,
                old(store).cells.next_id,
                rows@,
                CellMode::Normal,
                now,
            )
            &&& plugin_cell::all_written(
                old(store).plugin_cells.rows@,
                old(store).plugin_cells.next_id,
                final(store).cells.rows@,
                cell_links_of(
                    cell::returned_rows(
                        old(store).cells.rows@,
                        old(store).cells.next_id,
                        rows@,
                        CellMode::Normal,
                        now,
                    ),
                    parsed.cells@,
                    plugin_id,
                    source.file_id,
                    source.mod_id,
                ),
                now,
            )
        },
{
    let ghost masters = strings_view(parsed.header.masters@);
    let ghost name = file_name@;
    proof {
        assert forall|i: int| 0 <= i < parsed.cells@.len() implies (cell_world_known(
            #[trigger] parsed.cells@[i],
            masters,
            name,
            db_worlds@,
        ) <==> world_told(parsed.cells@[i], *parsed, name)) by {
            lemma_known_is_told(db_worlds@, *parsed, name, parsed.cells@[i]);
        }
    }
    let cells = match unsaved_cells(&parsed.cells, &parsed.header.masters, file_name, db_worlds) {
        Ok(cells) => cells,
        Err(e) => {
            return Err(IngestError::Plan(e));
        },
    };
    proof {
        if holds_cells_of(*old(store), plugin_id, *parsed, file_name@) {
            lemma_held_cells_are_written(
                *old(store),
                *parsed,
                plugin_id,
                source.file_id,
                source.mod_id,
                file_name@,
                db_worlds@,
                cells@,
                now,
            );
        }
    }
    let db_cells = match write_cells(store, &cells, now) {
        Ok(rows) => rows,
        Err(e) => {
            return Err(IngestError::Store(e));
        },
    };
    let ghost stored_cells = store.cells.rows@;
    proof {
        assert forall|k: int| 0 <= k < db_cells@.len() implies cell::id_stored(
            stored_cells,
            (#[trigger] db_cells@[k]).id,
        ) by {
            assert(cell::row_stored(stored_cells, db_cells@[k].id, cells@[k].key()));
            let i = choose|i: int|
                0 <= i < stored_cells.len() && (#[trigger] stored_cells[i]).id == db_cells@[k].id
                    && stored_cells[i].key() == cells@[k].key();
            assert(stored_cells[i].id == db_cells@[k].id);
        }
    }
    proof {
        if holds_cells_of(*old(store), plugin_id, *parsed, file_name@) {
            let links = cell_links_of(
                db_cells@,
                parsed.cells@,
                plugin_id,
                source.file_id,
                source.mod_id,
            );
            assert forall|k: int| 0 <= k < links.len() implies plugin_cell::key_stored(
                store.plugin_cells.rows@,
                (#[trigger] links[k]).key(),
            ) && plugin_cell::cell_exists(stored_cells, links[k].cell_id) by {
                assert(cell::id_stored(stored_cells, db_cells@[k].id));
            }
            plugin_cell::lemma_batch_of_stored(
                store.plugin_cells.rows@,
                store.plugin_cells.next_id,
                stored_cells,
                links,
                now,
            );
        }
    }
    let linked = write_cell_links(store, &db_cells, parsed, plugin_id, source, now);
    proof {
        if linked is Ok {
            assert forall|k: int| 0 <= k < parsed.cells@.len() implies cell_stored(
                *store,
                plugin_id,
                #[trigger] parsed.cells@[k],
                masters,
                name,
            ) by {
                assert(cell::row_stored(stored_cells, db_cells@[k].id, cells@[k].key()));
                assert(plugin_cell::key_stored(
                    store.plugin_cells.rows@,
                    (plugin_id, db_cells@[k].id),
                ));
                lemma_cell_is_stored(
                    stored_cells,
                    db_cells@[k].id,
                    cells@[k],
                    parsed.cells@[k],
                    masters,
                    name,
                    db_worlds@,
                );
            }
        }
    }
    match linked {
        Ok(()) => Ok(Ghost(cells@)),
        Err(e) => Err(IngestError::Store(e)),
    }
}

/// A cell whose row is stored under its key is stored as the kind of cell
/// it is.
proof fn lemma_cell_is_stored(
    stored: Seq<cell::Cell>,
    id: i32,
    row: cell::UnsavedCell,
    parsed_cell: ParsedCell,
    masters: Seq<Seq<char>>,
    file_name: Seq<char>,
    db_worlds: Seq<world::World>,
)
    requires
        cell::row_stored(stored, id, row.key()),
        is_cell_row(row, parsed_cell, masters, file_name, db_worlds),
        cell_world_known(parsed_cell, masters, file_name, db_worlds),
    ensures
        exists|i: int|
            0 <= i < stored.len() && (#[trigger] stored[i]).form_id == local_form_id(
                parsed_cell.form_id,
            ) && stored[i].master@ == owning_master(parsed_cell.form_id, masters, file_name) && (
            stored[i].world_id is None <==> parsed_cell.world_form_id is None) && stored[i].id
                == id,
{
    let j = choose|j: int|
        0 <= j < stored.len() && (#[trigger] stored[j]).id == id && stored[j].key() == row.key();
    assert(stored[j].form_id == row.form_id);
    assert(stored[j].master@ == row.master@);
    assert(stored[j].world_id == row.world_id);
}

/// A worldspace that is stored under the key of a row handed back for it
/// is stored.
proof fn lemma_world_is_stored(
    stored: Seq<world::World>,
    db_world: world::World,
    parsed_world: ParsedWorld,
    masters: Seq<Seq<char>>,
    file_name: Seq<char>,
)
    requires
        world::row_stored(stored, db_world.id, db_world.key()),
        db_world.form_id == local_form_id(parsed_world.form_id),
        db_world.master@ == owning_master(parsed_world.form_id, masters, file_name),
    ensures
        exists|i: int|
            0 <= i < stored.len() && (#[trigger] stored[i]).form_id == local_form_id(
                parsed_world.form_id,
            ) && stored[i].master@ == owning_master(parsed_world.form_id, masters, file_name)
                && stored[i].id == db_world.id,
{
    let j = choose|j: int|
        0 <= j < stored.len() && (#[trigger] stored[j]).id == db_world.id && stored[j].key()
            == db_world.key();
    assert(stored[j].form_id == db_world.form_id);
    assert(stored[j].master@ == db_world.master@);
}

/// The row of a cell names the worldspace of the cell among the stored
/// worldspaces.
pub proof fn lemma_names_world(
    before: Store,
    after: Store,
    parsed: ParsedPlugin,
    name: Seq<char>,
    world_rows: Seq<world::UnsavedWorld>,
    now: Timestamp,
    c: ParsedCell,
    world_id: Option<i32>,
)
    requires
        are_world_rows(world_rows, parsed.worlds@, strings_view(parsed.header.masters@), name),
        world::all_written(before.worlds.rows@, before.worlds.next_id, world_rows, now),
        (after.worlds.rows@, after.worlds.next_id) == world::table_after(
            before.worlds.rows@,
            before.worlds.next_id,
            world_rows,
            now,
        ),
        cell_world_known(
            c,
            strings_view(parsed.header.masters@),
            name,
            world::returned_rows(before.worlds.rows@, before.worlds.next_id, world_rows, now),
        ),
        world_id == match c.world_form_id {
            Some(w) => world_id_of(
                world::returned_rows(before.worlds.rows@, before.worlds.next_id, world_rows, now),
                local_form_id(w),
                owning_master(w, strings_view(parsed.header.masters@), name),
            ),
            None => None,
        },
    ensures
        names_world_of(after.worlds.rows@, world_id, c, strings_view(parsed.header.masters@), name),
{
    let masters = strings_view(parsed.header.masters@);
    let db_worlds = world::returned_rows(
        before.worlds.rows@,
        before.worlds.next_id,
        world_rows,
        now,
    );
    if let Some(w) = c.world_form_id {
        let form_id = local_form_id(w);
        let master = owning_master(w, masters, name);
        lemma_world_id_of(db_worlds, form_id, master);
        let m = choose|m: int|
            0 <= m < db_worlds.len() && (#[trigger] db_worlds[m]).form_id == form_id
                && db_worlds[m].master@ == master && db_worlds[m].id == world_id->0;
        assert(world::returned_at(before.worlds.rows@, before.worlds.next_id, world_rows, now, m)
            is Ok);
        world::lemma_batch_rows_stored(
            before.worlds.rows@,
            before.worlds.next_id,
            world_rows,
            now,
            m,
        );
        let j = choose|j: int|
            0 <= j < after.worlds.rows@.len() && (#[trigger] after.worlds.rows@[j]).id
                == db_worlds[m].id && after.worlds.rows@[j].key() == world_rows[m].key();
        assert(db_worlds[m].key() == world_rows[m].key());
        assert(after.worlds.rows@[j].form_id == form_id);
        assert(after.worlds.rows@[j].master@ == master);
    }
}

/// A recorded plugin is held: the store holds the plugin under the id
/// handed back, each of its worldspaces and cells, and a link from the
/// plugin to each. So a second recording needs no id, and succeeds.
pub proof fn lemma_recorded_plugin_is_held(
    before: Store,
    after: Store,
    id: i32,
    source: PluginSource,
    parsed: ParsedPlugin,
    hash: i64,
    size: i64,
    file_path: Seq<char>,
    now: Timestamp,
)
    requires
        after.well_formed(),
        records_plugin(before, after, id, source, parsed, hash, size, file_path, now),
    ensures
        worlds_told(parsed, file_name_of(file_path)),
        holds_all_of(after, source, parsed, file_path),
        plugin::position_of(after.plugins.rows@, (source.file_id, file_path)) matches Some(p)
            && after.plugins.rows@[p].id == id,
{
    let (plugin_row, world_rows, cell_rows) = choose|
        plugin_row: UnsavedPlugin,
        world_rows: Seq<world::UnsavedWorld>,
        cell_rows: Seq<cell::UnsavedCell>,
    |
        #[trigger] recorded(
            before,
            after,
            id,
            source,
            parsed,
            hash,
            size,
            file_path,
            now,
            plugin_row,
            world_rows,
            cell_rows,
        );
    let masters = strings_view(parsed.header.masters@);
    let name = file_name_of(file_path);
    let key = (source.file_id, file_path);
    // The plugin.
    plugin::lemma_position_of(before.plugins.rows@, key);
    plugin::lemma_position_of(after.plugins.rows@, key);
    let at = match plugin::position_of(before.plugins.rows@, key) {
        Some(i) => i,
        None => before.plugins.rows@.len() as int,
    };
    assert(after.plugins.rows@[at].key() == key && after.plugins.rows@[at].id == id);
    let p = plugin::position_of(after.plugins.rows@, key)->0;
    if p < at {
        assert(after.plugins.rows@[p].key() != after.plugins.rows@[at].key());
    }
    // The worldspaces.
    let worlds = before.worlds.rows@;
    let db_worlds = world::returned_rows(worlds, before.worlds.next_id, world_rows, now);
    let world_links = world_links_of(db_worlds, parsed.worlds@, id);
    assert forall|k: int| 0 <= k < parsed.worlds@.len() implies world_stored(
        after,
        id,
        #[trigger] parsed.worlds@[k],
        masters,
        name,
    ) by {
        assert(is_world_row(world_rows[k], parsed.worlds@[k], masters, name));
        assert(world::returned_at(worlds, before.worlds.next_id, world_rows, now, k) is Ok);
        world::lemma_batch_rows_stored(worlds, before.worlds.next_id, world_rows, now, k);
        let i = choose|i: int|
            0 <= i < after.worlds.rows@.len() && (#[trigger] after.worlds.rows@[i]).id
                == db_worlds[k].id && after.worlds.rows@[i].key() == world_rows[k].key();
        assert(plugin_world::written_at(
            before.plugin_worlds.rows@,
            before.plugin_worlds.next_id,
            after.worlds.rows@,
            world_links,
            now,
            k,
        ));
        plugin_world::lemma_batch_rows_stored(
            before.plugin_worlds.rows@,
            before.plugin_worlds.next_id,
            after.worlds.rows@,
            world_links,
            now,
            k,
        );
        assert(world_links[k].key() == (id, after.worlds.rows@[i].id));
        assert(after.worlds.rows@[i].form_id == local_form_id(parsed.worlds@[k].form_id));
    }
    // The cells.
    let cells = before.cells.rows@;
    let db_cells = cell::returned_rows(cells, before.cells.next_id, cell_rows, CellMode::Normal, now);
    let cell_links = cell_links_of(db_cells, parsed.cells@, id, source.file_id, source.mod_id);
    assert forall|k: int| 0 <= k < parsed.cells@.len() implies cell_held(
        after,
        id,
        #[trigger] parsed.cells@[k],
        masters,
        name,
    ) && world_told(parsed.cells@[k], parsed, name) by {
        let c = parsed.cells@[k];
        assert(is_cell_row(cell_rows[k], c, masters, name, db_worlds));
        assert(cell_world_known(c, masters, name, db_worlds));
        lemma_names_world(before, after, parsed, name, world_rows, now, c, cell_rows[k].world_id);
        assert(cell::returned_at(
            cells,
            before.cells.next_id,
            cell_rows,
            CellMode::Normal,
            now,
            k,
        ) is Ok);
        cell::lemma_batch_rows_stored(
            cells,
            before.cells.next_id,
            cell_rows,
            CellMode::Normal,
            now,
            k,
        );
        let i = choose|i: int|
            0 <= i < after.cells.rows@.len() && (#[trigger] after.cells.rows@[i]).id
                == db_cells[k].id && after.cells.rows@[i].key() == cell_rows[k].key();
        assert(plugin_cell::written_at(
            before.plugin_cells.rows@,
            before.plugin_cells.next_id,
            after.cells.rows@,
            cell_links,
            now,
            k,
        ));
        plugin_cell::lemma_batch_rows_stored(
            before.plugin_cells.rows@,
            before.plugin_cells.next_id,
            after.cells.rows@,
            cell_links,
            now,
            k,
        );
        assert(cell_links[k].key() == (id, after.cells.rows@[i].id));
        assert(after.cells.rows@[i].form_id == local_form_id(c.form_id));
        assert(after.cells.rows@[i].world_id == cell_rows[k].world_id);
        if let Some(w) = c.world_form_id {
            assert forall|m: int| 0 <= m < db_worlds.len() implies (#[trigger] db_worlds[m]).form_id
                == local_form_id(parsed.worlds@[m].form_id) && db_worlds[m].master@
                == owning_master(parsed.worlds@[m].form_id, masters, name) by {
                assert(is_world_row(world_rows[m], parsed.worlds@[m], masters, name));
                assert(world::returned_at(worlds, before.worlds.next_id, world_rows, now, m) is Ok);
                world::lemma_batch_rows_stored(worlds, before.worlds.next_id, world_rows, now, m);
            }
            lemma_known_is_told(db_worlds, parsed, name, c);
        }
    }
}

/// Writes the rows of a parsed plugin: the row of the plugin, then its
/// worldspaces and the links to them, then its cells and the links to
/// them, in this order. Hands back the id of the plugin.
fn record_plugin(
    store: &mut Store,
    row: UnsavedPlugin,
    source: &PluginSource,
    parsed: &ParsedPlugin,
    Ghost(hash): Ghost<i64>,
    Ghost(size): Ghost<i64>,
    file_path: &str,
    now: Timestamp,
) -> (r: Result<i32, IngestError>)
    requires
        old(store).well_formed(),
        is_plugin_row(row, *source, parsed.header, hash, size, file_path@),
    ensures
        final(store).well_formed(),
        base_game_spared(old(store).cells.rows@, final(store).cells.rows@),
        final(store).plugins.rows@.len() >= old(store).plugins.rows@.len(),
        final(store).worlds.rows@.len() >= old(store).worlds.rows@.len(),
        final(store).plugin_worlds.rows@.len() >= old(store).plugin_worlds.rows@.len(),
        final(store).plugin_cells.rows@.len() >= old(store).plugin_cells.rows@.len(),
        room_for(*old(store), *parsed) && worlds_told(*parsed, file_name_of(file_path@)) ==> r
            is Ok,
        worlds_told(*parsed, file_name_of(file_path@)) && holds_all_of(
            *old(store),
            *source,
            *parsed,
            file_path@,
        ) ==> r is Ok,
        r matches Err(IngestError::Store(e)) ==> e == StoreError::IdsExhausted && !room_for(
            *old(store),
            *parsed,
        ) && !holds_all_of(*old(store), *source, *parsed, file_path@),
        r matches Err(IngestError::Plan(PlanError::UnknownWorld { cell_index })) ==> cell_index
            < parsed.cells@.len() && !world_told(
            parsed.cells@[cell_index as int],
            *parsed,
            file_name_of(file_path@),
        ) && forall|j: int|
            0 <= j < cell_index ==> world_told(
                #[trigger] parsed.cells@[j],
                *parsed,
                file_name_of(file_path@),
            ),
        r matches Err(IngestError::Plan(_)) ==> records_until_cells(
            *old(store),
            *final(store),
            *source,
            *parsed,
            hash,
            size,
            file_path@,
            now,
        ),
        r is Ok ==> worlds_told(*parsed, file_name_of(file_path@)),
        r matches Ok(id) ==> {
            &&& plugin_stored(*final(store), id, source.file_id, file_path@)
            &&& forall|k: int|
                0 <= k < parsed.worlds@.len() ==> world_stored(
                    *final(store),
                    id,
                    #[trigger] parsed.worlds@[k],
                    strings_view(parsed.header.masters@),
                    file_name_of(file_path@),
                )
            &&& forall|k: int|
                0 <= k < parsed.cells@.len() ==> cell_stored(
                    *final(store),
                    id,
                    #[trigger] parsed.cells@[k],
                    strings_view(parsed.header.masters@),
                    file_name_of(file_path@),
                )
            &&& records_plugin(
                *old(store),
                *final(store),
                id,
                *source,
                *parsed,
                hash,
                size,
                file_path@,
                now,
            )
        },
{
    let ghost masters = strings_view(parsed.header.masters@);
    let ghost name = file_name_of(file_path@);
    let file_name = row.file_name.clone();
    let ghost key = row.key();
    let ghost plugin_row = row;
    proof {
        plugin::lemma_insert_keeps_well_formed(store.plugins.rows@, store.plugins.next_id, row, now);
        plugin::lemma_position_of(store.plugins.rows@, row.key());
    }
    let plugin_id: i32 = match plugin::insert(&mut store.plugins, row, now) {
        Ok(id) => id,
        Err(e) => {
            return Err(IngestError::Store(e));
        },
    };
    proof {
        let at = match plugin::position_of(old(store).plugins.rows@, key) {
            Some(i) => i,
            None => old(store).plugins.rows@.len() as int,
        };
        assert(store.plugins.rows@[at].id == plugin_id && store.plugins.rows@[at].key() == key);
    }
    let (db_worlds, world_rows) = match record_worlds(
        store,
        parsed,
        plugin_id,
        file_name.as_str(),
        now,
    ) {
        Ok(written) => written,
        Err(e) => {
            return Err(IngestError::Store(e));
        },
    };
    let ghost stored_worlds = store.worlds.rows@;
    let ghost world_links = store.plugin_worlds.rows@;
    let ghost midway = *store;
    proof {
        if holds_all_of(*old(store), *source, *parsed, file_path@) {
            lemma_held_cells_outlast_worlds(
                *old(store),
                midway,
                plugin_id,
                *parsed,
                name,
                world_rows@,
                now,
            );
        }
    }
    proof {
        assert(recorded_worlds(
            *old(store),
            midway,
            plugin_id,
            *source,
            *parsed,
            hash,
            size,
            file_path@,
            now,
            plugin_row,
            world_rows@,
        ));
    }
    let cell_rows = match record_cells(
        store,
        parsed,
        &db_worlds,
        plugin_id,
        source,
        file_name.as_str(),
        now,
    ) {
        Ok(rows) => rows,
        Err(e) => {
            proof {
                if e is Plan {
                    assert(recorded_worlds(
                        *old(store),
                        *store,
                        plugin_id,
                        *source,
                        *parsed,
                        hash,
                        size,
                        file_path@,
                        now,
                        plugin_row,
                        world_rows@,
                    ));
                }
            }
            return Err(e);
        },
    };
    proof {
        assert(recorded(
            *old(store),
            *store,
            plugin_id,
            *source,
            *parsed,
            hash,
            size,
            file_path@,
            now,
            plugin_row,
            world_rows@,
            cell_rows@,
        ));
        assert forall|k: int| 0 <= k < parsed.worlds@.len() implies world_stored(
            *store,
            plugin_id,
            #[trigger] parsed.worlds@[k],
            masters,
            name,
        ) by {
            assert(world::row_stored(stored_worlds, db_worlds@[k].id, db_worlds@[k].key()));
            assert(plugin_world::key_stored(world_links, (plugin_id, db_worlds@[k].id)));
            lemma_world_is_stored(stored_worlds, db_worlds@[k], parsed.worlds@[k], masters, name);
        }
    }
    Ok(plugin_id)
}

/// What came of one plugin of an archive.
#[derive(Debug, Clone, PartialEq)]
pub struct PluginOutcome {
    /// The id under which the plugin is stored, where it was recorded.
    pub plugin_id: Option<i32>,
    /// The path under which the bytes of the plugin are to be kept, where
    /// they are to be kept.
    pub blob_path: Option<String>,
}

/// The plugin that parsing gave, where it gave one.
pub open spec fn plugin_of(parsed: Option<&ParsedPlugin>) -> ParsedPlugin {
    *parsed->0
}

/// Whether `after` and `r` are what processing a plugin makes of `before`.
///
/// An empty plugin is passed over: nothing is written, and nothing is to
/// be kept. A plugin that could not be parsed writes no row, and its bytes
/// are to be kept. A parsed plugin is recorded under the hash and the
/// number of its bytes, and its bytes are to be kept; where it cannot be
/// recorded to the end, the run ends with an error and no path is given.
/// Bytes are kept under `plugins`, the name of the game, the upstream ids
/// of mod and file, and the path of the plugin within its archive.
pub open spec fn processes(
    before: Store,
    after: Store,
    r: Result<PluginOutcome, IngestError>,
    bytes: Seq<u8>,
    parsed: Option<&ParsedPlugin>,
    file: File,
    game_mod: Mod,
    file_path: Seq<char>,
    game_name: Seq<char>,
    now: Timestamp,
) -> bool {
    let path = blob_path_of(game_name, game_mod.nexus_mod_id, file.nexus_file_id, file_path);
    match steps_of(bytes, parsed is Some) {
        PluginSteps::Skip => {
            &&& after == before
            &&& r is Ok
            &&& r->Ok_0.plugin_id is None
            &&& r->Ok_0.blob_path is None
        },
        PluginSteps::SaveBlobOnly => {
            &&& after == before
            &&& r is Ok
            &&& r->Ok_0.plugin_id is None
            &&& r->Ok_0.blob_path is Some
            &&& r->Ok_0.blob_path->0@ == path
        },
        PluginSteps::WriteRowsAndSaveBlob => r is Ok ==> {
            &&& r->Ok_0.plugin_id is Some
            &&& r->Ok_0.blob_path is Some
            &&& r->Ok_0.blob_path->0@ == path
            &&& records_plugin(
                before,
                after,
                r->Ok_0.plugin_id->0,
                source_of(file, game_mod),
                plugin_of(parsed),
                plugin_hash_of(bytes),
                bytes.len() as i64,
                file_path,
                now,
            )
        },
    }
}

/// Processes one plugin of an archive: decides from its bytes and from
/// what parsing gave whether it is recorded and whether its bytes are
/// kept, records it, and answers with the id of the plugin and with the
/// path under which the caller is to keep the bytes.
///
/// An empty plugin is passed over, whatever `parsed` holds: the caller
/// need not parse it. A plugin that was not parsed (`parsed` is `None`)
/// writes no row and is kept all the same. A parsed plugin is recorded
/// with the hash of its bytes and their number: the row of the plugin,
/// then its worldspaces and the links to them, then its cells and the
/// links to them.
///
/// Whatever the plugin holds, and whether or not it can be recorded to
/// the end, the store stays well formed: no key is stored twice and no
/// link dangles. No cell of the base game is changed, and no row is lost.
///
/// The recording ends at the first row that cannot be written, and where
/// a cell names a worldspace that the plugin does not hold, of which the
/// first is reported; what was written before stays written. A plugin is
/// recorded only where each of its cells lies in a worldspace that it
/// holds or in none. Such a plugin is recorded to the end where the tables
/// have ids left for it, and also where the store holds all of it already,
/// so that a plugin that was recorded is recorded again without fail. The
/// store is then the one that `records_plugin` describes: each table is
/// what the writes of the rows of the plugin, in their order, make of the
/// table before.
pub fn process_plugin(
    store: &mut Store,
    plugin_buf: &[u8],
    parsed: Option<&ParsedPlugin>,
    db_file: &File,
    db_mod: &Mod,
    file_path: &str,
    game_name: &str,
    now: Timestamp,
) -> (r: Result<PluginOutcome, IngestError>)
    requires
        old(store).well_formed(),
        plugin_buf@.len() <= i64::MAX,
    ensures
        final(store).well_formed(),
        base_game_spared(old(store).cells.rows@, final(store).cells.rows@),
        final(store).plugins.rows@.len() >= old(store).plugins.rows@.len(),
        final(store).worlds.rows@.len() >= old(store).worlds.rows@.len(),
        final(store).plugin_worlds.rows@.len() >= old(store).plugin_worlds.rows@.len(),
        final(store).plugin_cells.rows@.len() >= old(store).plugin_cells.rows@.len(),
        processes(
            *old(store),
            *final(store),
            r,
            plugin_buf@,
            parsed,
            *db_file,
            *db_mod,
            file_path@,
            game_name@,
            now,
        ),
        parsed is Some && plugin_buf@.len() > 0 ==> {
            let plugin = plugin_of(parsed);
            let source = source_of(*db_file, *db_mod);
            let told = worlds_told(plugin, file_name_of(file_path@));
            &&& told && room_for(*old(store), plugin) ==> r is Ok
            &&& told && holds_all_of(*old(store), source, plugin, file_path@) ==> r is Ok
            &&& r is Ok ==> told && holds_all_of(*final(store), source, plugin, file_path@)
            &&& r matches Err(IngestError::Store(e)) ==> e == StoreError::IdsExhausted && !room_for(
                *old(store),
                plugin,
            ) && !holds_all_of(*old(store), source, plugin, file_path@)
            &&& r matches Err(IngestError::Plan(PlanError::UnknownWorld { cell_index }))
                ==> cell_index < plugin.cells@.len() && !world_told(
                plugin.cells@[cell_index as int],
                plugin,
                file_name_of(file_path@),
            ) && forall|j: int|
                0 <= j < cell_index ==> world_told(
                    #[trigger] plugin.cells@[j],
                    plugin,
                    file_name_of(file_path@),
                )
            &&& r matches Err(IngestError::Plan(_)) ==> records_until_cells(
                *old(store),
                *final(store),
                source,
                plugin,
                plugin_hash_of(plugin_buf@),
                plugin_buf@.len() as i64,
                file_path@,
                now,
            )
        },
{
    let header = match parsed {
        Some(plugin) => Some(&plugin.header),
        None => None,
    };
    let PluginPlan { steps: _, row, blob_path } = plan_plugin(
        plugin_buf,
        header,
        db_file,
        db_mod,
        file_path,
        game_name,
    );
    let plugin_id = match (row, parsed) {
        (Some(row), Some(plugin)) => {
            let source = PluginSource {
                file_display_name: db_file.name.clone(),
                file_id: db_file.id,
                mod_id: db_mod.id,
            };
            let recorded = record_plugin(
                store,
                row,
                &source,
                plugin,
                Ghost(plugin_hash_of(plugin_buf@)),
                Ghost(plugin_buf@.len() as i64),
                file_path,
                now,
            );
            match recorded {
                Ok(id) => {
                    proof {
                        assert(source == source_of(*db_file, *db_mod));
                        lemma_recorded_plugin_is_held(
                            *old(store),
                            *store,
                            id,
                            source,
                            *plugin,
                            plugin_hash_of(plugin_buf@),
                            plugin_buf@.len() as i64,
                            file_path@,
                            now,
                        );
                    }
                    Some(id)
                },
                Err(e) => {
                    return Err(e);
                },
            }
        },
        _ => None,
    };
    Ok(PluginOutcome { plugin_id, blob_path })
}

} // verus!

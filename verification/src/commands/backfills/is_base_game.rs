//! Seeding the cells of the base game from its parsed base plugin.

use vstd::prelude::*;
use crate::models::cell::UnsavedCell;
use crate::models::world::{UnsavedWorld, World};
use crate::plugin_processor::{
    cell_world_known, is_cell_row, is_world_row, strings_view, unsaved_cells, unsaved_worlds,
    ParsedPlugin, PlanError,
};

verus! {

/// The name of the base plugin of the game.
pub open spec fn base_plugin_name() -> Seq<char> {
    "Skyrim.esm"@
}

/// The rows to write for the worldspaces of the base plugin, in their
/// order.
pub fn base_game_worlds(plugin: &ParsedPlugin) -> (r: Vec<UnsavedWorld>)
    ensures
        r@.len() == plugin.worlds@.len(),
        forall|i: int|
            0 <= i < plugin.worlds@.len() ==> is_world_row(
                #[trigger] r@[i],
                plugin.worlds@[i],
                strings_view(plugin.header.masters@),
                base_plugin_name(),
            ),
{
    unsaved_worlds(&plugin.worlds, &plugin.header.masters, "Skyrim.esm")
}

/// The rows to write for the cells of the base plugin, in their order,
/// once its worldspaces are stored. They are to be written as cells of the
/// base game.
pub fn base_game_cells(plugin: &ParsedPlugin, db_worlds: &Vec<World>) -> (r: Result<
    Vec<UnsavedCell>,
    PlanError,
>)
    ensures
        match r {
            Ok(rows) => rows@.len() == plugin.cells@.len() && forall|i: int|
                0 <= i < plugin.cells@.len() ==> cell_world_known(
                    #[trigger] plugin.cells@[i],
                    strings_view(plugin.header.masters@),
                    base_plugin_name(),
                    db_worlds@,
                ) && is_cell_row(
                    rows@[i],
                    plugin.cells@[i],
                    strings_view(plugin.header.masters@),
                    base_plugin_name(),
                    db_worlds@,
                ),
            Err(PlanError::UnknownWorld { cell_index }) => cell_index < plugin.cells@.len()
                && !cell_world_known(
                plugin.cells@[cell_index as int],
                strings_view(plugin.header.masters@),
                base_plugin_name(),
                db_worlds@,
            ),
        },
{
    unsaved_cells(&plugin.cells, &plugin.header.masters, "Skyrim.esm", db_worlds)
}

} // verus!

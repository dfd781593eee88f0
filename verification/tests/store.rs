use modmapper::models::cell::{self, Cell, CellMode, CellTable, StoreError, UnsavedCell};
use modmapper::models::plugin::Plugin;
use modmapper::models::plugin_cell::{self, PluginCell, PluginCellTable, UnsavedPluginCell};
use modmapper::models::plugin_world::PluginWorld;
use modmapper::models::world::{self, UnsavedWorld, WorldTable};
use modmapper::models::file::File;
use modmapper::models::game_mod::Mod;
use modmapper::plugin_processor::{
    plugin_hash, ParsedCell, ParsedHeader, ParsedPlugin, ParsedWorld, PlanError,
};
use modmapper::store::{process_plugin, IngestError, PluginOutcome, Store};
use modmapper::time::Timestamp;

fn t(seconds: i64) -> Timestamp {
    Timestamp { seconds, nanos: 0 }
}

fn interior(form_id: i32, master: &str) -> UnsavedCell {
    UnsavedCell {
        form_id,
        master: master.to_string(),
        x: None,
        y: None,
        world_id: None,
        is_persistent: false,
    }
}

fn exterior(form_id: i32, master: &str, world_id: i32, x: i32, y: i32) -> UnsavedCell {
    UnsavedCell {
        form_id,
        master: master.to_string(),
        x: Some(x),
        y: Some(y),
        world_id: Some(world_id),
        is_persistent: false,
    }
}

fn link(plugin_id: i32, cell_id: i32, editor_id: Option<&str>) -> UnsavedPluginCell {
    UnsavedPluginCell {
        plugin_id,
        cell_id,
        file_id: 30,
        mod_id: 40,
        editor_id: editor_id.map(String::from),
    }
}

fn keys_are_unique(table: &CellTable) -> bool {
    let rows = &table.rows;
    (0..rows.len()).all(|i| {
        (i + 1..rows.len()).all(|j| {
            (rows[i].form_id, &rows[i].master, rows[i].world_id)
                != (rows[j].form_id, &rows[j].master, rows[j].world_id)
        })
    })
}

#[test]
fn a_new_cell_gets_the_next_id() {
    let mut table = CellTable::new();
    let first = cell::insert(&mut table, &exterior(0xD74, "Skyrim.esm", 1, 5, -7), CellMode::Normal, t(10));
    assert_eq!(
        first,
        Ok(Cell {
            id: 1,
            form_id: 0xD74,
            master: "Skyrim.esm".to_string(),
            x: Some(5),
            y: Some(-7),
            world_id: Some(1),
            is_persistent: false,
            is_base_game: false,
            updated_at: t(10),
            created_at: t(10),
        })
    );
    let second = cell::insert(&mut table, &interior(0x10, "X.esm"), CellMode::Normal, t(11));
    assert_eq!(second.map(|c| c.id), Ok(2));
    assert_eq!(table.rows.len(), 2);
    assert_eq!(table.next_id, 3);
}

#[test]
fn writing_a_cell_again_overwrites_it_in_place() {
    let mut table = CellTable::new();
    cell::insert(&mut table, &exterior(1, "A.esm", 1, 0, 0), CellMode::Normal, t(10)).unwrap();
    cell::insert(&mut table, &exterior(2, "A.esm", 1, 0, 1), CellMode::Normal, t(10)).unwrap();
    let mut moved = exterior(1, "A.esm", 1, 9, 9);
    moved.is_persistent = true;
    let row = cell::insert(&mut table, &moved, CellMode::Normal, t(20)).unwrap();
    assert_eq!(row.id, 1);
    assert_eq!((row.x, row.y, row.is_persistent), (Some(9), Some(9), true));
    assert_eq!(row.created_at, t(10));
    assert_eq!(row.updated_at, t(20));
    assert_eq!(table.rows.len(), 2);
    assert_eq!(table.rows[0], row);
    assert_eq!(table.rows[1].updated_at, t(10));
    assert_eq!(table.next_id, 3);
}

#[test]
fn cells_differ_by_form_id_master_and_world() {
    let mut table = CellTable::new();
    for new in [
        exterior(1, "A.esm", 1, 0, 0),
        exterior(1, "A.esm", 2, 0, 0),
        exterior(1, "B.esm", 1, 0, 0),
        exterior(2, "A.esm", 1, 0, 0),
        interior(1, "A.esm"),
    ] {
        cell::insert(&mut table, &new, CellMode::Normal, t(1)).unwrap();
    }
    assert_eq!(table.rows.len(), 5);
    assert!(keys_are_unique(&table));
}

#[test]
fn an_interior_cell_is_stored_once_however_often_it_is_written() {
    let mut table = CellTable::new();
    for round in 0..5 {
        let row = cell::insert(&mut table, &interior(0x10, "X.esm"), CellMode::Normal, t(round));
        assert_eq!(row.map(|c| c.id), Ok(1));
    }
    assert_eq!(table.rows.len(), 1);
    assert_eq!(table.rows[0].created_at, t(0));
    assert_eq!(table.rows[0].updated_at, t(4));
}

#[test]
fn an_ordinary_write_leaves_a_base_game_cell_as_it_is() {
    let mut table = CellTable::new();
    let seeded =
        cell::insert(&mut table, &exterior(0xD74, "Skyrim.esm", 1, 5, -7), CellMode::BaseGameSeed, t(1))
            .unwrap();
    assert!(seeded.is_base_game);
    let mut changed = exterior(0xD74, "Skyrim.esm", 1, 0, 0);
    changed.is_persistent = true;
    let handed_back = cell::insert(&mut table, &changed, CellMode::Normal, t(50)).unwrap();
    assert_eq!(handed_back, seeded);
    assert_eq!(table.rows, vec![seeded]);
}

#[test]
fn the_seed_may_overwrite_and_claims_what_it_writes() {
    let mut table = CellTable::new();
    cell::insert(&mut table, &exterior(1, "Skyrim.esm", 1, 5, -7), CellMode::Normal, t(1)).unwrap();
    let seeded =
        cell::insert(&mut table, &exterior(1, "Skyrim.esm", 1, 6, -7), CellMode::BaseGameSeed, t(2))
            .unwrap();
    assert!(seeded.is_base_game);
    assert_eq!(seeded.x, Some(6));
    let again =
        cell::insert(&mut table, &exterior(1, "Skyrim.esm", 1, 7, -7), CellMode::BaseGameSeed, t(3))
            .unwrap();
    assert!(again.is_base_game);
    assert_eq!(again.x, Some(7));
    assert_eq!(again.id, seeded.id);
    assert_eq!(table.rows.len(), 1);
}

#[test]
fn a_full_table_refuses_new_cells_but_still_overwrites() {
    let mut table = CellTable::new();
    cell::insert(&mut table, &interior(1, "A.esm"), CellMode::Normal, t(1)).unwrap();
    table.next_id = i32::MAX;
    let before = table.clone();
    assert_eq!(
        cell::insert(&mut table, &interior(2, "A.esm"), CellMode::Normal, t(2)),
        Err(StoreError::IdsExhausted)
    );
    assert_eq!(table, before);
    assert_eq!(
        cell::insert(&mut table, &interior(1, "A.esm"), CellMode::Normal, t(3)).map(|c| c.id),
        Ok(1)
    );
}

#[test]
fn a_batch_hands_back_one_row_for_each_cell_in_order() {
    let mut table = CellTable::new();
    let news = vec![
        interior(3, "A.esm"),
        interior(1, "A.esm"),
        interior(3, "A.esm"),
        exterior(1, "A.esm", 4, 0, 0),
    ];
    let rows = cell::batched_insert(&mut table, &news, CellMode::Normal, t(5)).unwrap();
    let ids: Vec<i32> = rows.iter().map(|c| c.id).collect();
    assert_eq!(ids, vec![1, 2, 1, 3]);
    assert_eq!(table.rows.len(), 3);
    assert!(keys_are_unique(&table));
}

#[test]
fn a_batch_stops_at_the_first_cell_it_cannot_write() {
    let mut table = CellTable::new();
    table.next_id = i32::MAX - 1;
    let news = vec![interior(1, "A.esm"), interior(2, "A.esm"), interior(1, "A.esm")];
    assert_eq!(
        cell::batched_insert(&mut table, &news, CellMode::Normal, t(5)),
        Err(StoreError::IdsExhausted)
    );
    assert_eq!(table.rows.len(), 1);
    assert_eq!(table.rows[0].updated_at, t(5));
}

#[test]
fn a_batch_of_ordinary_writes_spares_every_base_game_cell() {
    let mut table = CellTable::new();
    let base = vec![exterior(1, "Skyrim.esm", 1, 0, 0), interior(2, "Skyrim.esm")];
    cell::batched_insert(&mut table, &base, CellMode::BaseGameSeed, t(1)).unwrap();
    let seeded = table.rows.clone();
    let news = vec![
        exterior(1, "Skyrim.esm", 1, 100, 100),
        interior(2, "Skyrim.esm"),
        interior(3, "Skyrim.esm"),
    ];
    cell::batched_insert(&mut table, &news, CellMode::Normal, t(9)).unwrap();
    assert_eq!(table.rows[..2], seeded[..]);
    assert_eq!(table.rows.len(), 3);
    assert!(!table.rows[2].is_base_game);
}

#[test]
fn worlds_are_stored_once_and_only_the_moment_changes() {
    let mut table = WorldTable::new();
    let a = UnsavedWorld { form_id: 0x3C, master: "Skyrim.esm".to_string() };
    let b = UnsavedWorld { form_id: 0x3C, master: "Mine.esp".to_string() };
    let rows = world::batched_insert(&mut table, &vec![a.clone(), b, a.clone()], t(1)).unwrap();
    let ids: Vec<i32> = rows.iter().map(|w| w.id).collect();
    assert_eq!(ids, vec![1, 2, 1]);
    let again = world::insert(&mut table, &a, t(7)).unwrap();
    assert_eq!(again.id, 1);
    assert_eq!(again.created_at, t(1));
    assert_eq!(again.updated_at, t(7));
    assert_eq!(table.rows.len(), 2);
}

#[test]
fn a_link_needs_its_cell() {
    let mut cells = CellTable::new();
    cell::insert(&mut cells, &interior(1, "A.esm"), CellMode::Normal, t(1)).unwrap();
    let mut links = PluginCellTable::new();
    assert_eq!(
        plugin_cell::insert(&mut links, &cells.rows, &link(5, 2, None), t(2)),
        Err(StoreError::MissingReference)
    );
    assert_eq!(links.rows.len(), 0);
    let row = plugin_cell::insert(&mut links, &cells.rows, &link(5, 1, Some("Inn")), t(2)).unwrap();
    assert_eq!((row.id, row.plugin_id, row.cell_id, row.file_id, row.mod_id), (1, 5, 1, 30, 40));
    assert_eq!(row.editor_id, Some("Inn".to_string()));
}

#[test]
fn a_link_is_stored_once_and_its_editor_id_follows_the_last_write() {
    let mut cells = CellTable::new();
    cell::insert(&mut cells, &interior(1, "A.esm"), CellMode::Normal, t(1)).unwrap();
    cell::insert(&mut cells, &interior(2, "A.esm"), CellMode::Normal, t(1)).unwrap();
    let mut links = PluginCellTable::new();
    let news = vec![link(5, 1, Some("Old")), link(5, 2, None), link(6, 1, None), link(5, 1, Some("New"))];
    let rows = plugin_cell::batched_insert(&mut links, &cells.rows, &news, t(3)).unwrap();
    let ids: Vec<i32> = rows.iter().map(|l| l.id).collect();
    assert_eq!(ids, vec![1, 2, 3, 1]);
    assert_eq!(links.rows.len(), 3);
    assert_eq!(links.rows[0].editor_id, Some("New".to_string()));
    for row in &links.rows {
        assert!(cells.rows.iter().any(|c| c.id == row.cell_id));
    }
}

fn parsed_plugin() -> (Vec<ParsedWorld>, Vec<ParsedCell>) {
    let worlds = vec![
        ParsedWorld { form_id: 0x0000_003C, editor_id: "Tamriel".to_string() },
        ParsedWorld { form_id: 0x0100_0D62, editor_id: "MyWorld".to_string() },
    ];
    let cells = (0..5u32)
        .map(|i| ParsedCell {
            form_id: 0x0100_1000 + i,
            editor_id: Some(format!("MyCell{}", i)),
            x: Some(i as i32),
            y: Some(-(i as i32)),
            world_form_id: Some(if i < 3 { 0x0000_003C } else { 0x0100_0D62 }),
            is_persistent: false,
        })
        .collect();
    (worlds, cells)
}

fn parsed() -> ParsedPlugin {
    let (worlds, cells) = parsed_plugin();
    ParsedPlugin {
        header: ParsedHeader {
            version_bits: 0x3FD9_999A,
            author: Some("someone".to_string()),
            description: None,
            masters: vec!["Skyrim.esm".to_string()],
        },
        worlds,
        cells,
    }
}

const GAME: &str = "skyrimspecialedition";
const BYTES: &[u8] = b"TES4 and what follows it";

fn db_file(id: i32, name: &str) -> File {
    File {
        id,
        name: name.to_string(),
        file_name: "main.zip".to_string(),
        nexus_file_id: 9001,
        mod_id: 4,
        category: Some("MAIN".to_string()),
        version: None,
        mod_version: None,
        size: 1,
        uploaded_at: t(0),
        has_download_link: true,
        updated_at: t(0),
        created_at: t(0),
        downloaded_at: None,
        has_plugin: true,
        unable_to_extract_plugins: false,
    }
}

fn db_mod() -> Mod {
    Mod {
        id: 4,
        name: "A mod".to_string(),
        nexus_mod_id: 266,
        author_name: "someone".to_string(),
        author_id: 1,
        category_name: None,
        category_id: None,
        description: None,
        thumbnail_link: None,
        game_id: 1,
        is_translation: false,
        updated_at: t(0),
        created_at: t(0),
        last_update_at: t(0),
        first_upload_at: t(0),
        last_updated_files_at: None,
    }
}

fn record(
    store: &mut Store,
    bytes: &[u8],
    plugin: &ParsedPlugin,
    file: &File,
    path: &str,
    now: Timestamp,
) -> Result<i32, IngestError> {
    process_plugin(store, bytes, Some(plugin), file, &db_mod(), path, GAME, now)
        .map(|outcome| outcome.plugin_id.expect("the id of a recorded plugin"))
}

fn ingest(store: &mut Store, now: Timestamp) -> Result<i32, IngestError> {
    record(store, BYTES, &parsed(), &db_file(3, "Main File"), "Data/Mine.esp", now)
}

#[test]
fn a_plugin_with_two_worlds_and_five_exterior_cells_fills_an_empty_store() {
    let mut store = Store::new();
    assert_eq!(ingest(&mut store, t(100)), Ok(1));
    assert_eq!(store.plugins.rows.len(), 1);
    assert_eq!(store.worlds.rows.len(), 2);
    assert_eq!(store.plugin_worlds.rows.len(), 2);
    assert_eq!(store.cells.rows.len(), 5);
    assert_eq!(store.plugin_cells.rows.len(), 5);
    let plugin = &store.plugins.rows[0];
    assert_eq!(
        (plugin.id, plugin.hash, plugin.size, plugin.file_id, plugin.mod_id),
        (1, plugin_hash(BYTES), BYTES.len() as i64, 3, 4)
    );
    assert_eq!(plugin.name, "Main File");
    assert_eq!(plugin.file_name, "Mine.esp");
    assert_eq!(plugin.file_path, "Data/Mine.esp");
    assert_eq!(plugin.masters, vec!["Skyrim.esm".to_string()]);
    assert!(store.cells.rows.iter().all(|c| c.world_id.is_some() && c.x.is_some()));
    assert_eq!(store.cells.rows[0].master, "Mine.esp");
    assert_eq!(store.cells.rows[0].world_id, Some(1));
    assert_eq!(store.cells.rows[4].world_id, Some(2));
    assert_eq!(store.worlds.rows[0].master, "Skyrim.esm");
    assert_eq!(store.worlds.rows[1].master, "Mine.esp");
    assert_eq!(store.plugin_worlds.rows[1].editor_id, "MyWorld");
    for link in &store.plugin_cells.rows {
        assert_eq!((link.plugin_id, link.file_id, link.mod_id), (1, 3, 4));
        let cell = store.cells.rows.iter().find(|c| c.id == link.cell_id).unwrap();
        let expected = format!("MyCell{}", cell.form_id - 0x1000);
        assert_eq!(link.editor_id, Some(expected));
    }
}

#[test]
fn ingesting_the_same_plugin_twice_adds_no_rows_and_advances_the_moment() {
    let mut store = Store::new();
    assert_eq!(ingest(&mut store, t(100)), Ok(1));
    let once = store.clone();
    assert_eq!(ingest(&mut store, t(200)), Ok(1));
    assert_eq!(store.plugins.rows.len(), 1);
    assert_eq!(store.worlds.rows.len(), 2);
    assert_eq!(store.plugin_worlds.rows.len(), 2);
    assert_eq!(store.cells.rows.len(), 5);
    assert_eq!(store.plugin_cells.rows.len(), 5);
    assert_eq!(store.plugins.rows[0].created_at, t(100));
    assert_eq!(store.plugins.rows[0].updated_at, t(200));
    for (now, then) in store.cells.rows.iter().zip(&once.cells.rows) {
        assert_eq!(now.updated_at, t(200));
        assert_eq!(Cell { updated_at: then.updated_at, ..now.clone() }, *then);
    }
    for (now, then) in store.worlds.rows.iter().zip(&once.worlds.rows) {
        assert_eq!(
            (now.id, now.form_id, &now.master, now.created_at),
            (then.id, then.form_id, &then.master, then.created_at)
        );
        assert!(now.updated_at.seconds >= then.updated_at.seconds);
    }
    for (now, then) in store.plugin_worlds.rows.iter().zip(&once.plugin_worlds.rows) {
        assert_eq!(PluginWorld { updated_at: then.updated_at, ..now.clone() }, *then);
        assert_eq!(now.updated_at, t(200));
    }
    for (now, then) in store.plugin_cells.rows.iter().zip(&once.plugin_cells.rows) {
        assert_eq!(PluginCell { updated_at: then.updated_at, ..now.clone() }, *then);
        assert_eq!(now.updated_at, t(200));
    }
    for (now, then) in store.plugins.rows.iter().zip(&once.plugins.rows) {
        assert_eq!(Plugin { updated_at: then.updated_at, ..now.clone() }, *then);
    }
}

#[test]
fn the_same_plugin_in_another_file_shares_worlds_and_cells() {
    let mut store = Store::new();
    assert_eq!(ingest(&mut store, t(100)), Ok(1));
    let other = db_file(9, "Old File");
    let id = record(&mut store, BYTES, &parsed(), &other, "Data/Mine.esp", t(150));
    assert_eq!(id, Ok(2));
    assert_eq!(store.plugins.rows.len(), 2);
    assert_eq!(store.plugins.rows[0].hash, store.plugins.rows[1].hash);
    assert_eq!(store.worlds.rows.len(), 2);
    assert_eq!(store.cells.rows.len(), 5);
    assert_eq!(store.plugin_worlds.rows.len(), 4);
    assert_eq!(store.plugin_cells.rows.len(), 10);
}

#[test]
fn a_cell_in_a_world_that_the_plugin_does_not_hold_ends_the_run() {
    let mut plugin = parsed();
    plugin.cells[3].world_form_id = Some(0x0000_0999);
    let mut store = Store::new();
    let r = record(&mut store, BYTES, &plugin, &db_file(3, "Main File"), "Mine.esp", t(1));
    assert_eq!(r, Err(IngestError::Plan(PlanError::UnknownWorld { cell_index: 3 })));
    assert_eq!(store.plugins.rows.len(), 1);
    assert_eq!(store.worlds.rows.len(), 2);
    assert_eq!(store.plugin_worlds.rows.len(), 2);
    assert_eq!(store.cells.rows.len(), 0);
    assert_eq!(store.plugin_cells.rows.len(), 0);
}

#[test]
fn a_table_without_ids_left_ends_the_run() {
    let mut store = Store::new();
    store.cells.next_id = i32::MAX - 2;
    let r = ingest(&mut store, t(1));
    assert_eq!(r, Err(IngestError::Store(StoreError::IdsExhausted)));
    assert_eq!(store.cells.rows.len(), 2);
    assert_eq!(store.plugin_cells.rows.len(), 0);
    let mut store = Store::new();
    store.plugins.next_id = i32::MAX;
    assert_eq!(ingest(&mut store, t(1)), Err(IngestError::Store(StoreError::IdsExhausted)));
    assert_eq!(store.worlds.rows.len(), 0);
    let mut store = Store::new();
    store.cells.next_id = i32::MAX - 5;
    assert_eq!(ingest(&mut store, t(1)), Ok(1));
}

#[test]
fn an_ingestion_spares_the_cells_of_the_base_game() {
    let mut store = Store::new();
    let base = world::insert(
        &mut store.worlds,
        &UnsavedWorld { form_id: 0x3C, master: "Skyrim.esm".to_string() },
        t(1),
    )
    .unwrap();
    let seeded = cell::insert(
        &mut store.cells,
        &exterior(0x1000, "Mine.esp", base.id, 50, 50),
        CellMode::BaseGameSeed,
        t(1),
    )
    .unwrap();
    assert_eq!(ingest(&mut store, t(100)), Ok(1));
    assert_eq!(store.cells.rows[0], seeded);
    assert_eq!(store.cells.rows.len(), 5);
    assert_eq!(store.plugin_cells.rows[0].cell_id, seeded.id);
}

#[test]
fn a_plugin_without_worlds_and_cells_writes_only_its_own_row() {
    let plugin = ParsedPlugin {
        header: ParsedHeader { version_bits: 0, author: None, description: None, masters: vec![] },
        worlds: vec![],
        cells: vec![],
    };
    let mut store = Store::new();
    assert_eq!(record(&mut store, b"x", &plugin, &db_file(3, "Main File"), "a.esp", t(1)), Ok(1));
    assert_eq!(store.plugins.rows.len(), 1);
    assert_eq!(store.worlds.rows.len() + store.cells.rows.len(), 0);
}

#[test]
fn a_plugin_recorded_again_keeps_its_id_its_size_and_the_moment_of_its_creation() {
    let mut store = Store::new();
    assert_eq!(ingest(&mut store, t(100)), Ok(1));
    let other_bytes: &[u8] = b"TES4 and something else that is longer";
    let again =
        record(&mut store, other_bytes, &parsed(), &db_file(3, "Main File"), "Data/Mine.esp", t(200));
    assert_eq!(again, Ok(1));
    assert_eq!(store.plugins.rows.len(), 1);
    let plugin = &store.plugins.rows[0];
    assert_eq!((plugin.id, plugin.hash, plugin.size), (1, plugin_hash(other_bytes), BYTES.len() as i64));
    assert_ne!(plugin_hash(other_bytes), plugin_hash(BYTES));
    assert_eq!((plugin.created_at, plugin.updated_at), (t(100), t(200)));
    assert_eq!(store.plugins.next_id, 2);
    assert_eq!(store.worlds.next_id, 3);
    assert_eq!(store.cells.next_id, 6);
    assert_eq!(store.plugin_worlds.next_id, 3);
    assert_eq!(store.plugin_cells.next_id, 6);
}

#[test]
fn of_two_cells_of_one_form_id_the_later_gives_place_and_editor_id() {
    let mut plugin = parsed();
    plugin.cells = vec![
        ParsedCell {
            form_id: 0x0100_2000,
            editor_id: Some("First".to_string()),
            x: Some(1),
            y: Some(2),
            world_form_id: None,
            is_persistent: false,
        },
        ParsedCell {
            form_id: 0x0100_2000,
            editor_id: Some("Second".to_string()),
            x: Some(3),
            y: Some(4),
            world_form_id: None,
            is_persistent: true,
        },
    ];
    let mut store = Store::new();
    let id = record(&mut store, BYTES, &plugin, &db_file(3, "Main File"), "Mine.esp", t(100));
    assert_eq!(id, Ok(1));
    assert_eq!(store.cells.rows.len(), 1);
    assert_eq!(store.plugin_cells.rows.len(), 1);
    let cell = &store.cells.rows[0];
    assert_eq!((cell.form_id, cell.world_id, cell.x, cell.y, cell.is_persistent), (0x2000, None, Some(3), Some(4), true));
    let link = &store.plugin_cells.rows[0];
    assert_eq!((link.plugin_id, link.cell_id), (1, cell.id));
    assert_eq!(link.editor_id, Some("Second".to_string()));
}

#[test]
fn an_empty_plugin_is_passed_over_and_nothing_is_kept() {
    let mut store = Store::new();
    ingest(&mut store, t(1)).unwrap();
    let before = store.clone();
    for plugin in [None, Some(&parsed())] {
        let r = process_plugin(
            &mut store,
            b"",
            plugin,
            &db_file(3, "Main File"),
            &db_mod(),
            "Data/Empty.esp",
            GAME,
            t(2),
        );
        assert_eq!(r, Ok(PluginOutcome { plugin_id: None, blob_path: None }));
        assert_eq!(store, before);
    }
}

#[test]
fn a_plugin_that_did_not_parse_writes_no_row_and_is_kept() {
    let mut store = Store::new();
    let r = process_plugin(
        &mut store,
        b"not a plugin",
        None,
        &db_file(3, "Main File"),
        &db_mod(),
        "Data/Broken.esp",
        GAME,
        t(2),
    );
    assert_eq!(
        r,
        Ok(PluginOutcome {
            plugin_id: None,
            blob_path: Some("plugins/skyrimspecialedition/266/9001/Data/Broken.esp".to_string()),
        })
    );
    assert_eq!(store, Store::new());
}

#[test]
fn a_recorded_plugin_is_kept_under_game_mod_file_and_path() {
    let mut store = Store::new();
    let r = process_plugin(
        &mut store,
        BYTES,
        Some(&parsed()),
        &db_file(3, "Main File"),
        &db_mod(),
        "Data/Mine.esp",
        GAME,
        t(2),
    );
    assert_eq!(
        r,
        Ok(PluginOutcome {
            plugin_id: Some(1),
            blob_path: Some("plugins/skyrimspecialedition/266/9001/Data/Mine.esp".to_string()),
        })
    );
    assert_eq!(store.plugins.rows[0].name, "Main File");
}

#[test]
fn a_recorded_plugin_is_recorded_again_where_no_id_is_left() {
    let mut store = Store::new();
    assert_eq!(ingest(&mut store, t(100)), Ok(1));
    store.plugins.next_id = i32::MAX;
    store.worlds.next_id = i32::MAX;
    store.plugin_worlds.next_id = i32::MAX;
    store.cells.next_id = i32::MAX;
    store.plugin_cells.next_id = i32::MAX;
    let once = store.clone();
    assert_eq!(ingest(&mut store, t(200)), Ok(1));
    assert_eq!(store.cells.rows.len(), once.cells.rows.len());
    assert_eq!(store.plugin_cells.rows.len(), once.plugin_cells.rows.len());
    assert_eq!(store.plugins.next_id, i32::MAX);
    let other = db_file(9, "Old File");
    assert_eq!(
        record(&mut store, BYTES, &parsed(), &other, "Data/Mine.esp", t(300)),
        Err(IngestError::Store(StoreError::IdsExhausted))
    );
}

#[test]
fn where_a_worldspace_is_not_told_the_plugin_and_its_worldspaces_are_written_and_no_cell() {
    let mut plugin = parsed();
    plugin.cells[1].world_form_id = Some(0x0000_0999);
    plugin.cells[3].world_form_id = Some(0x0000_0998);
    let mut store = Store::new();
    let r = record(&mut store, BYTES, &plugin, &db_file(3, "Main File"), "Mine.esp", t(7));
    assert_eq!(r, Err(IngestError::Plan(PlanError::UnknownWorld { cell_index: 1 })));
    assert_eq!(store.plugins.rows.len(), 1);
    assert_eq!(store.plugins.rows[0].hash, plugin_hash(BYTES));
    assert_eq!(store.worlds.rows.len(), 2);
    assert_eq!(store.plugin_worlds.rows.len(), 2);
    assert_eq!(store.plugin_worlds.rows[0].editor_id, "Tamriel");
    assert_eq!(store.cells, Store::new().cells);
    assert_eq!(store.plugin_cells, Store::new().plugin_cells);
}

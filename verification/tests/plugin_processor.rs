use modmapper::models::cell::{Cell, UnsavedCell};
use modmapper::models::plugin_cell::UnsavedPluginCell;
use modmapper::models::plugin_world::UnsavedPluginWorld;
use modmapper::models::world::{UnsavedWorld, World};
use modmapper::models::file::File;
use modmapper::models::game_mod::Mod;
use modmapper::plugin_processor::{
    file_name, find_world_id, plan_plugin, plugin_blob_path, plugin_hash, plugin_steps,
    unsaved_cells, unsaved_plugin, unsaved_plugin_cells, unsaved_plugin_worlds, unsaved_worlds,
    ParsedCell, ParsedHeader, ParsedWorld, PlanError, PluginSource, PluginSteps,
};
use modmapper::radix::hash_to_string;
use modmapper::time::Timestamp;

fn t(seconds: i64) -> Timestamp {
    Timestamp { seconds, nanos: 0 }
}

fn world(id: i32, form_id: i32, master: &str) -> World {
    World { id, form_id, master: master.to_string(), updated_at: t(0), created_at: t(0) }
}

fn cell_row(id: i32) -> Cell {
    Cell {
        id,
        form_id: 0,
        master: String::new(),
        x: None,
        y: None,
        world_id: None,
        is_persistent: false,
        is_base_game: false,
        updated_at: t(0),
        created_at: t(0),
    }
}

fn parsed_cell(form_id: u32, world_form_id: Option<u32>, x: Option<i32>, y: Option<i32>) -> ParsedCell {
    ParsedCell {
        form_id,
        editor_id: Some(format!("Cell{:X}", form_id)),
        x,
        y,
        world_form_id,
        is_persistent: false,
    }
}

fn masters() -> Vec<String> {
    vec!["Skyrim.esm".to_string(), "Update.esm".to_string()]
}

#[test]
fn plugin_hash_is_the_seahash_of_the_bytes() {
    assert_eq!(plugin_hash(b"to be or not to be"), 1_988_685_042_348_123_509);
    for bytes in [&b""[..], b"T", b"TES4", &[0u8; 100], &[0xFFu8; 33]] {
        assert_eq!(plugin_hash(bytes), seahash::hash(bytes) as i64);
    }
}

#[test]
fn plugin_hash_differs_from_its_input_and_between_inputs() {
    let a = plugin_hash(&[1, 0, 0, 0, 0, 0, 0, 0]);
    let b = plugin_hash(&[2, 0, 0, 0, 0, 0, 0, 0]);
    assert_ne!(a, 1);
    assert_ne!(b, 2);
    assert_ne!(a, b);
}

#[test]
fn plugin_hash_is_the_same_for_the_same_bytes() {
    let one = vec![7u8; 4096];
    let other = one.clone();
    assert_eq!(plugin_hash(&one), plugin_hash(&other));
}

#[test]
fn plugin_hash_may_be_negative_and_prints_unsigned() {
    let bytes: Vec<Vec<u8>> = (0..64u8).map(|i| vec![i; 3]).collect();
    let negative = bytes.iter().map(|b| plugin_hash(b)).find(|h| *h < 0);
    let hash = negative.expect("one of 64 hashes has its top bit set");
    assert_eq!(
        u64::from_str_radix(&hash_to_string(hash), 36),
        Ok(hash as u64)
    );
}

#[test]
fn plugin_steps_pass_over_empty_plugins() {
    assert_eq!(plugin_steps(0, true), PluginSteps::Skip);
    assert_eq!(plugin_steps(0, false), PluginSteps::Skip);
    assert_eq!(plugin_steps(1, true), PluginSteps::WriteRowsAndSaveBlob);
    assert_eq!(plugin_steps(1, false), PluginSteps::SaveBlobOnly);
    assert_eq!(plugin_steps(usize::MAX, false), PluginSteps::SaveBlobOnly);
}

#[test]
fn file_name_is_what_follows_the_last_slash() {
    assert_eq!(file_name("a.esp"), "a.esp");
    assert_eq!(file_name("Data/a.esp"), "a.esp");
    assert_eq!(file_name("/a.esp"), "a.esp");
    assert_eq!(file_name("one/two/three.esm"), "three.esm");
    assert_eq!(file_name("one/two/"), "");
    assert_eq!(file_name(""), "");
    assert_eq!(file_name("back\\slash.esp"), "back\\slash.esp");
    assert_eq!(file_name("dir/ünï.esp"), "ünï.esp");
}

#[test]
fn unsaved_plugin_carries_header_source_and_path() {
    let source = PluginSource { file_display_name: "Main File".to_string(), file_id: 3, mod_id: 4 };
    let header = ParsedHeader {
        version_bits: 1.7f32.to_bits(),
        author: Some("me".to_string()),
        description: None,
        masters: masters(),
    };
    let row = unsaved_plugin(&source, &header, -99, 1234, "Data/Sub/My.esp");
    assert_eq!(row.name, "Main File");
    assert_eq!(row.hash, -99);
    assert_eq!(row.file_id, 3);
    assert_eq!(row.mod_id, 4);
    assert_eq!(f32::from_bits(row.version_bits), 1.7f32);
    assert_eq!(row.size, 1234);
    assert_eq!(row.author, Some("me".to_string()));
    assert_eq!(row.description, None);
    assert_eq!(row.masters, masters());
    assert_eq!(row.file_name, "My.esp");
    assert_eq!(row.file_path, "Data/Sub/My.esp");
}

#[test]
fn unsaved_worlds_decode_each_form_id() {
    let worlds = vec![
        ParsedWorld { form_id: 0x0000_003C, editor_id: "Tamriel".to_string() },
        ParsedWorld { form_id: 0x0100_0ABC, editor_id: "Other".to_string() },
        ParsedWorld { form_id: 0x0200_0001, editor_id: "Mine".to_string() },
        ParsedWorld { form_id: 0xFF00_0002, editor_id: "AlsoMine".to_string() },
    ];
    assert_eq!(
        unsaved_worlds(&worlds, &masters(), "Mine.esp"),
        vec![
            UnsavedWorld { form_id: 0x3C, master: "Skyrim.esm".to_string() },
            UnsavedWorld { form_id: 0xABC, master: "Update.esm".to_string() },
            UnsavedWorld { form_id: 1, master: "Mine.esp".to_string() },
            UnsavedWorld { form_id: 2, master: "Mine.esp".to_string() },
        ]
    );
    assert_eq!(unsaved_worlds(&vec![], &masters(), "Mine.esp"), vec![]);
}

#[test]
fn unsaved_plugin_worlds_pair_stored_and_parsed_in_order() {
    let stored = vec![world(10, 0x3C, "Skyrim.esm"), world(11, 1, "Mine.esp")];
    let parsed = vec![
        ParsedWorld { form_id: 0x3C, editor_id: "Tamriel".to_string() },
        ParsedWorld { form_id: 0x0200_0001, editor_id: "Mine".to_string() },
    ];
    assert_eq!(
        unsaved_plugin_worlds(&stored, &parsed, 5),
        vec![
            UnsavedPluginWorld { plugin_id: 5, world_id: 10, editor_id: "Tamriel".to_string() },
            UnsavedPluginWorld { plugin_id: 5, world_id: 11, editor_id: "Mine".to_string() },
        ]
    );
}

#[test]
fn unsaved_plugin_worlds_stop_at_the_shorter_list() {
    let stored = vec![world(10, 0x3C, "Skyrim.esm")];
    let parsed = vec![
        ParsedWorld { form_id: 0x3C, editor_id: "Tamriel".to_string() },
        ParsedWorld { form_id: 0x0200_0001, editor_id: "Mine".to_string() },
    ];
    assert_eq!(unsaved_plugin_worlds(&stored, &parsed, 5).len(), 1);
    assert_eq!(unsaved_plugin_worlds(&vec![], &parsed, 5), vec![]);
    assert_eq!(unsaved_plugin_worlds(&stored, &vec![], 5), vec![]);
}

#[test]
fn find_world_id_goes_by_form_id_and_master() {
    let stored = vec![
        world(10, 0x3C, "Skyrim.esm"),
        world(11, 0x3C, "Mine.esp"),
        world(12, 0x3C, "Skyrim.esm"),
    ];
    assert_eq!(find_world_id(&stored, 0x3C, "Skyrim.esm"), Some(10));
    assert_eq!(find_world_id(&stored, 0x3C, "Mine.esp"), Some(11));
    assert_eq!(find_world_id(&stored, 0x3D, "Mine.esp"), None);
    assert_eq!(find_world_id(&stored, 0x3C, "mine.esp"), None);
    assert_eq!(find_world_id(&vec![], 0x3C, "Mine.esp"), None);
}

#[test]
fn unsaved_cells_refer_to_the_stored_world_of_exterior_cells() {
    let stored = vec![world(10, 0x3C, "Skyrim.esm"), world(11, 1, "Mine.esp")];
    let cells = vec![
        parsed_cell(0x0000_0D74, Some(0x3C), Some(5), Some(-7)),
        parsed_cell(0x0200_0800, Some(0x0200_0001), Some(0), Some(0)),
        parsed_cell(0x0100_0010, None, None, None),
        ParsedCell {
            form_id: 0x0200_0801,
            editor_id: None,
            x: None,
            y: None,
            world_form_id: Some(0x0000_003C),
            is_persistent: true,
        },
    ];
    let rows = unsaved_cells(&cells, &masters(), "Mine.esp", &stored);
    assert_eq!(
        rows,
        Ok(vec![
            UnsavedCell {
                form_id: 0xD74,
                master: "Skyrim.esm".to_string(),
                x: Some(5),
                y: Some(-7),
                world_id: Some(10),
                is_persistent: false,
            },
            UnsavedCell {
                form_id: 0x800,
                master: "Mine.esp".to_string(),
                x: Some(0),
                y: Some(0),
                world_id: Some(11),
                is_persistent: false,
            },
            UnsavedCell {
                form_id: 0x10,
                master: "Update.esm".to_string(),
                x: None,
                y: None,
                world_id: None,
                is_persistent: false,
            },
            UnsavedCell {
                form_id: 0x801,
                master: "Mine.esp".to_string(),
                x: None,
                y: None,
                world_id: Some(10),
                is_persistent: true,
            },
        ])
    );
}

#[test]
fn unsaved_cells_keep_interior_cells_without_world_and_exterior_cells_with() {
    let stored = vec![world(10, 0x3C, "Skyrim.esm")];
    let cells = vec![
        parsed_cell(1, None, None, None),
        parsed_cell(2, Some(0x3C), Some(1), Some(1)),
        parsed_cell(3, None, None, None),
    ];
    let rows = unsaved_cells(&cells, &masters(), "Mine.esp", &stored).unwrap();
    for (row, cell) in rows.iter().zip(&cells) {
        assert_eq!(row.world_id.is_some(), cell.world_form_id.is_some());
    }
}

#[test]
fn unsaved_cells_report_the_first_cell_of_an_unknown_world() {
    let stored = vec![world(10, 0x3C, "Skyrim.esm")];
    let cells = vec![
        parsed_cell(1, Some(0x3C), Some(0), Some(0)),
        parsed_cell(2, Some(0x3D), Some(0), Some(0)),
        parsed_cell(3, Some(0x0100_003C), Some(0), Some(0)),
    ];
    assert_eq!(
        unsaved_cells(&cells, &masters(), "Mine.esp", &stored),
        Err(PlanError::UnknownWorld { cell_index: 1 })
    );
    assert_eq!(
        unsaved_cells(&cells, &masters(), "Mine.esp", &vec![]),
        Err(PlanError::UnknownWorld { cell_index: 0 })
    );
}

#[test]
fn unsaved_plugin_cells_pair_stored_and_parsed_in_order() {
    let stored = vec![cell_row(70), cell_row(71)];
    let cells = vec![
        parsed_cell(0xA, None, None, None),
        ParsedCell {
            form_id: 0xB,
            editor_id: None,
            x: None,
            y: None,
            world_form_id: None,
            is_persistent: false,
        },
        parsed_cell(0xC, None, None, None),
    ];
    assert_eq!(
        unsaved_plugin_cells(&stored, &cells, 5, 6, 7),
        vec![
            UnsavedPluginCell {
                plugin_id: 5,
                cell_id: 70,
                file_id: 6,
                mod_id: 7,
                editor_id: Some("CellA".to_string()),
            },
            UnsavedPluginCell { plugin_id: 5, cell_id: 71, file_id: 6, mod_id: 7, editor_id: None },
        ]
    );
}

#[test]
fn blob_path_names_game_mod_file_and_plugin() {
    assert_eq!(
        plugin_blob_path("skyrimspecialedition", 266, 1234, "Data/My Mod.esp"),
        "plugins/skyrimspecialedition/266/1234/Data/My Mod.esp"
    );
    assert_eq!(plugin_blob_path("skyrim", 0, -1, "a.esm"), "plugins/skyrim/0/-1/a.esm");
    assert_eq!(
        plugin_blob_path("g", i32::MAX, i32::MIN, ""),
        "plugins/g/2147483647/-2147483648/"
    );
}

fn planned_file() -> File {
    File {
        id: 3,
        name: "Main File".to_string(),
        file_name: "main.zip".to_string(),
        nexus_file_id: 9001,
        mod_id: 4,
        category: None,
        version: None,
        mod_version: None,
        size: 1,
        uploaded_at: t(0),
        has_download_link: true,
        updated_at: t(0),
        created_at: t(0),
        downloaded_at: None,
        has_plugin: true,
        unable_to_extract_plugins: false,
    }
}

fn planned_mod() -> Mod {
    Mod {
        id: 4,
        name: "A mod".to_string(),
        nexus_mod_id: 266,
        author_name: "someone".to_string(),
        author_id: 1,
        category_name: None,
        category_id: None,
        description: None,
        thumbnail_link: None,
        game_id: 1,
        is_translation: false,
        updated_at: t(0),
        created_at: t(0),
        last_update_at: t(0),
        first_upload_at: t(0),
        last_updated_files_at: None,
    }
}

fn planned_header() -> ParsedHeader {
    ParsedHeader {
        version_bits: 0x3FD9_999A,
        author: Some("someone".to_string()),
        description: None,
        masters: vec!["Skyrim.esm".to_string()],
    }
}

#[test]
fn the_plan_of_an_empty_plugin_is_to_do_nothing() {
    for header in [None, Some(&planned_header())] {
        let plan = plan_plugin(b"", header, &planned_file(), &planned_mod(), "a.esp", "skyrim");
        assert_eq!(plan.steps, PluginSteps::Skip);
        assert_eq!(plan.row, None);
        assert_eq!(plan.blob_path, None);
    }
}

#[test]
fn the_plan_of_a_plugin_that_did_not_parse_is_to_keep_its_bytes() {
    let plan = plan_plugin(b"junk", None, &planned_file(), &planned_mod(), "Data/a.esp", "skyrim");
    assert_eq!(plan.steps, PluginSteps::SaveBlobOnly);
    assert_eq!(plan.row, None);
    assert_eq!(plan.blob_path, Some("plugins/skyrim/266/9001/Data/a.esp".to_string()));
}

#[test]
fn the_plan_of_a_parsed_plugin_holds_its_row_with_hash_and_size_of_the_bytes() {
    let bytes = b"TES4 and the rest";
    let header = planned_header();
    let plan =
        plan_plugin(bytes, Some(&header), &planned_file(), &planned_mod(), "Data/a.esp", "skyrim");
    assert_eq!(plan.steps, PluginSteps::WriteRowsAndSaveBlob);
    assert_eq!(plan.blob_path, Some("plugins/skyrim/266/9001/Data/a.esp".to_string()));
    let row = plan.row.expect("the row of the plugin");
    assert_eq!(row.hash, plugin_hash(bytes));
    assert_eq!(row.size, 17);
    assert_eq!((row.file_id, row.mod_id), (3, 4));
    assert_eq!(row.name, "Main File");
    assert_eq!(row.file_name, "a.esp");
    assert_eq!(row.file_path, "Data/a.esp");
    assert_eq!(row.masters, vec!["Skyrim.esm".to_string()]);
    assert_eq!(row.version_bits, 0x3FD9_999A);
    assert_eq!(row.author, Some("someone".to_string()));
}

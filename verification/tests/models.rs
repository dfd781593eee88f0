use modmapper::commands::backfills::is_base_game::{base_game_cells, base_game_worlds};
use modmapper::commands::backfills::is_translation::{is_full_page, translation_ids};
use modmapper::commands::dump_cell_edit_counts_over_time::TimeStep;
use modmapper::models::file::{get_processed_nexus_file_ids_by_mod_id, File, UnsavedFile};
use modmapper::models::game::{get_game_id, GAME_ID};
use modmapper::models::game_mod::{
    bulk_get_last_updated_by_nexus_mod_ids, update_from_api_response, Mod, ModLastUpdatedFilesAt,
    ModUpdate,
};
use modmapper::models::cell::{self, UnsavedCell};
use modmapper::models::plugin_cell::{self, UnsavedPluginCell};
use modmapper::models::plugin_world::{self, UnsavedPluginWorld};
use modmapper::models::world::{self, UnsavedWorld, World};
use modmapper::models::{batches, id_set, BATCH_SIZE};
use modmapper::nexus_api::files::ApiFile;
use modmapper::nexus_api::game_mod::ExtractedModData;
use modmapper::nexus_scraper::ScrapedMod;
use modmapper::plugin_processor::{ParsedCell, ParsedHeader, ParsedPlugin, ParsedWorld};
use modmapper::time::{Date, Timestamp};

fn t(seconds: i64) -> Timestamp {
    Timestamp { seconds, nanos: 0 }
}

fn file(id: i32, mod_id: i32, nexus_file_id: i32) -> File {
    File {
        id,
        name: "n".to_string(),
        file_name: "f".to_string(),
        nexus_file_id,
        mod_id,
        category: None,
        version: None,
        mod_version: None,
        size: 0,
        uploaded_at: t(0),
        has_download_link: true,
        updated_at: t(0),
        created_at: t(0),
        downloaded_at: None,
        has_plugin: true,
        unable_to_extract_plugins: false,
    }
}

fn stored_mod(id: i32, game_id: i32, nexus_mod_id: i32, done: Option<i64>) -> Mod {
    Mod {
        id,
        name: "Old name".to_string(),
        nexus_mod_id,
        author_name: "old author".to_string(),
        author_id: 1,
        category_name: Some("Old".to_string()),
        category_id: Some(1),
        description: Some("old".to_string()),
        thumbnail_link: None,
        game_id,
        is_translation: false,
        updated_at: t(0),
        created_at: t(0),
        last_update_at: t(0),
        first_upload_at: t(0),
        last_updated_files_at: done.map(t),
    }
}

#[test]
fn id_set_holds_each_id_once() {
    let set = id_set(&vec![3, 1, 3, -7, 1]);
    assert_eq!(set.len(), 3);
    assert!(set.contains(&3) && set.contains(&1) && set.contains(&-7));
    assert!(!set.contains(&0));
    assert!(id_set(&vec![]).is_empty());
}

#[test]
fn batch_size_is_fifty() {
    assert_eq!(BATCH_SIZE, 50);
}

#[test]
fn batches_cut_rows_into_runs_of_fifty() {
    for (len, sizes) in [
        (0usize, vec![]),
        (1, vec![1]),
        (49, vec![49]),
        (50, vec![50]),
        (51, vec![50, 1]),
        (100, vec![50, 50]),
        (101, vec![50, 50, 1]),
        (149, vec![50, 50, 49]),
    ] {
        let rows: Vec<usize> = (0..len).collect();
        let cut = batches(&rows);
        let got: Vec<usize> = cut.iter().map(|b| b.len()).collect();
        assert_eq!(got, sizes);
        let joined: Vec<usize> = cut.iter().flat_map(|b| b.iter().copied()).collect();
        assert_eq!(joined, rows);
    }
}

#[test]
fn processed_files_are_downloaded_or_known_to_be_of_no_use() {
    let fresh = file(1, 1, 10);
    assert!(!fresh.is_processed());
    assert!(File { downloaded_at: Some(t(5)), ..fresh.clone() }.is_processed());
    assert!(File { has_plugin: false, ..fresh.clone() }.is_processed());
    assert!(File { has_download_link: false, ..fresh.clone() }.is_processed());
    assert!(!File { unable_to_extract_plugins: true, ..fresh }.is_processed());
}

#[test]
fn processed_ids_are_those_of_the_mod() {
    let files = vec![
        File { downloaded_at: Some(t(5)), ..file(1, 1, 10) },
        file(2, 1, 11),
        File { has_plugin: false, ..file(3, 1, 12) },
        File { has_download_link: false, ..file(4, 2, 13) },
        File { has_download_link: false, ..file(5, 1, 14) },
    ];
    assert_eq!(get_processed_nexus_file_ids_by_mod_id(&files, 1), vec![10, 12, 14]);
    assert_eq!(get_processed_nexus_file_ids_by_mod_id(&files, 2), vec![13]);
    assert_eq!(get_processed_nexus_file_ids_by_mod_id(&files, 3), Vec::<i32>::new());
}

#[test]
fn unsaved_file_keeps_the_fields_of_the_api() {
    let api = ApiFile {
        file_id: (1 << 32) + 9,
        name: "Main".to_string(),
        file_name: "main.7z".to_string(),
        category: Some("MAIN".to_string()),
        version: Some("2".to_string()),
        mod_version: None,
        size: 77,
        content_preview_link: Some("link".to_string()),
        uploaded_at: t(123),
    };
    assert_eq!(
        UnsavedFile::from_api_file(&api, 4),
        UnsavedFile {
            name: "Main".to_string(),
            file_name: "main.7z".to_string(),
            nexus_file_id: 9,
            mod_id: 4,
            category: Some("MAIN".to_string()),
            version: Some("2".to_string()),
            mod_version: None,
            size: 77,
            uploaded_at: t(123),
        }
    );
}

#[test]
fn last_updated_is_answered_for_the_mods_asked_for() {
    let mods = vec![
        stored_mod(1, 1, 100, Some(50)),
        stored_mod(2, 1, 101, None),
        stored_mod(3, 2, 100, Some(60)),
        stored_mod(4, 1, 102, Some(70)),
        stored_mod(5, 1, 103, Some(80)),
    ];
    assert_eq!(
        bulk_get_last_updated_by_nexus_mod_ids(&mods, 1, &vec![103, 100, 101, 999]),
        vec![
            ModLastUpdatedFilesAt { nexus_mod_id: 100, last_updated_files_at: t(50) },
            ModLastUpdatedFilesAt { nexus_mod_id: 103, last_updated_files_at: t(80) },
        ]
    );
    assert_eq!(bulk_get_last_updated_by_nexus_mod_ids(&mods, 1, &vec![]), vec![]);
}

#[test]
fn update_from_api_response_keeps_name_and_category_where_none_is_given() {
    let stored = stored_mod(7, 1, 100, None);
    let data = ExtractedModData {
        nexus_mod_id: 100,
        name: None,
        category_id: None,
        author_name: "new author".to_string(),
        author_id: 2,
        description: None,
        thumbnail_link: Some("thumb".to_string()),
        last_update_at: t(9),
        first_upload_at: t(8),
    };
    assert_eq!(
        update_from_api_response(&stored, &data),
        ModUpdate {
            id: 7,
            nexus_mod_id: 100,
            name: "Old name".to_string(),
            category_id: Some(1),
            author_name: "new author".to_string(),
            author_id: 2,
            last_update_at: t(9),
            first_upload_at: t(8),
            description: None,
            thumbnail_link: Some("thumb".to_string()),
        }
    );
    let data = ExtractedModData {
        name: Some("New name".to_string()),
        category_id: Some(5),
        description: Some("new".to_string()),
        ..data
    };
    let update = update_from_api_response(&stored, &data);
    assert_eq!(update.name, "New name");
    assert_eq!(update.category_id, Some(5));
    assert_eq!(update.description, Some("new".to_string()));
}

#[test]
fn the_known_game_has_its_id() {
    assert_eq!(GAME_ID, 1704);
    assert_eq!(get_game_id("skyrimspecialedition"), Some(1704));
    assert_eq!(get_game_id("SkyrimSpecialEdition"), None);
    assert_eq!(get_game_id(""), None);
}

#[test]
fn time_steps_are_read_from_their_words() {
    assert_eq!(TimeStep::parse("day"), Ok(TimeStep::Day));
    assert_eq!(TimeStep::parse("week"), Ok(TimeStep::Week));
    assert_eq!(TimeStep::parse("month"), Ok(TimeStep::Month));
    assert_eq!(TimeStep::parse("year"), Err("invalid time step: year".to_string()));
    assert_eq!(TimeStep::parse("Day"), Err("invalid time step: Day".to_string()));
    assert_eq!(TimeStep::parse(""), Err("invalid time step: ".to_string()));
    assert_eq!("week".parse::<TimeStep>(), Ok(TimeStep::Week));
    assert_eq!("weeks".parse::<TimeStep>(), Err("invalid time step: weeks".to_string()));
}

#[test]
fn translation_pages_are_full_at_twenty() {
    assert!(is_full_page(20));
    assert!(!is_full_page(19));
    assert!(!is_full_page(0));
    assert!(!is_full_page(21));
}

#[test]
fn translation_ids_follow_the_page() {
    let scraped = |id: i32| ScrapedMod {
        nexus_mod_id: id,
        name: String::new(),
        category_name: None,
        category_id: None,
        author_name: String::new(),
        author_id: 0,
        desc: None,
        thumbnail_link: None,
        last_update_at: Date { days_from_ce: 1 },
        first_upload_at: Date { days_from_ce: 1 },
    };
    assert_eq!(translation_ids(&vec![scraped(5), scraped(3), scraped(5)]), vec![5, 3, 5]);
    assert_eq!(translation_ids(&vec![]), Vec::<i32>::new());
}

#[test]
fn the_base_plugin_owns_what_no_master_owns() {
    let plugin = ParsedPlugin {
        header: ParsedHeader { version_bits: 0, author: None, description: None, masters: vec![] },
        worlds: vec![ParsedWorld { form_id: 0x3C, editor_id: "Tamriel".to_string() }],
        cells: vec![
            ParsedCell {
                form_id: 0xD74,
                editor_id: None,
                x: Some(1),
                y: Some(2),
                world_form_id: Some(0x3C),
                is_persistent: false,
            },
            ParsedCell {
                form_id: 0x1_0000,
                editor_id: None,
                x: None,
                y: None,
                world_form_id: None,
                is_persistent: false,
            },
        ],
    };
    let worlds = base_game_worlds(&plugin);
    assert_eq!(worlds.len(), 1);
    assert_eq!((worlds[0].form_id, worlds[0].master.as_str()), (0x3C, "Skyrim.esm"));
    let stored = vec![World {
        id: 1,
        form_id: 0x3C,
        master: "Skyrim.esm".to_string(),
        updated_at: t(0),
        created_at: t(0),
    }];
    let cells = base_game_cells(&plugin, &stored).unwrap();
    assert_eq!(cells.len(), 2);
    assert_eq!(cells[0].world_id, Some(1));
    assert_eq!(cells[0].master, "Skyrim.esm");
    assert_eq!(cells[1].world_id, None);
    assert_eq!(cells[1].form_id, 0x1_0000);
}

#[test]
fn rows_of_one_statement_must_differ_in_their_keys() {
    let w = |form_id: i32, master: &str| UnsavedWorld { form_id, master: master.to_string() };
    assert!(world::keys_differ(&[]));
    assert!(world::keys_differ(&[w(1, "a.esm"), w(1, "b.esm"), w(2, "a.esm")]));
    assert!(!world::keys_differ(&[w(1, "a.esm"), w(2, "a.esm"), w(1, "a.esm")]));
    let c = |form_id: i32, master: &str, world_id: Option<i32>, x: i32| UnsavedCell {
        form_id,
        master: master.to_string(),
        x: Some(x),
        y: None,
        world_id,
        is_persistent: false,
    };
    assert!(cell::keys_differ(&[c(1, "a", None, 0), c(1, "a", Some(1), 0), c(1, "b", None, 0)]));
    assert!(!cell::keys_differ(&[c(1, "a", None, 0), c(2, "a", None, 0), c(2, "a", None, 9)]));
    let pw = |plugin_id: i32, world_id: i32, editor_id: &str| UnsavedPluginWorld {
        plugin_id,
        world_id,
        editor_id: editor_id.to_string(),
    };
    assert!(plugin_world::keys_differ(&[pw(1, 1, "a"), pw(1, 2, "a"), pw(2, 1, "a")]));
    assert!(!plugin_world::keys_differ(&[pw(1, 1, "a"), pw(1, 1, "b")]));
    let pc = |plugin_id: i32, cell_id: i32| UnsavedPluginCell {
        plugin_id,
        cell_id,
        file_id: 1,
        mod_id: 1,
        editor_id: None,
    };
    assert!(plugin_cell::keys_differ(&[pc(1, 1), pc(1, 2), pc(2, 1)]));
    assert!(!plugin_cell::keys_differ(&[pc(1, 2), pc(3, 4), pc(1, 2)]));
}

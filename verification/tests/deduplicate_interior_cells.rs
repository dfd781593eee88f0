use modmapper::commands::backfills::deduplicate_interior_cells::{
    apply_group, choose_cell, deduplicate_interior_cells, find_duplicates, CellDuplicates, CellId,
    DedupError, PAGE_SIZE,
};
use modmapper::models::cell::Cell;
use modmapper::models::plugin_cell::PluginCell;
use modmapper::time::Timestamp;

fn t(seconds: i64) -> Timestamp {
    Timestamp { seconds, nanos: 0 }
}

fn cell(id: i32, form_id: i32, master: &str, world_id: Option<i32>, is_base_game: bool) -> Cell {
    Cell {
        id,
        form_id,
        master: master.to_string(),
        x: world_id.map(|_| 0),
        y: world_id.map(|_| 0),
        world_id,
        is_persistent: false,
        is_base_game,
        updated_at: t(1),
        created_at: t(1),
    }
}

fn link(id: i32, plugin_id: i32, cell_id: i32) -> PluginCell {
    PluginCell {
        id,
        plugin_id,
        cell_id,
        file_id: 1,
        mod_id: 1,
        editor_id: Some(format!("E{}", id)),
        updated_at: t(1),
        created_at: t(1),
    }
}

fn ids(cells: &[Cell]) -> Vec<i32> {
    cells.iter().map(|c| c.id).collect()
}

#[test]
fn page_size_is_one_hundred() {
    assert_eq!(PAGE_SIZE, 100);
}

#[test]
fn choose_cell_prefers_the_base_game() {
    let plain = |id| CellId { id, is_base_game: false };
    let base = |id| CellId { id, is_base_game: true };
    assert_eq!(choose_cell(&vec![]), None);
    assert_eq!(choose_cell(&vec![plain(9), plain(7)]), Some(plain(9)));
    assert_eq!(choose_cell(&vec![plain(9), base(7)]), Some(base(7)));
    assert_eq!(choose_cell(&vec![plain(9), base(7), base(3)]), Some(base(7)));
    assert_eq!(choose_cell(&vec![base(1)]), Some(base(1)));
}

#[test]
fn find_duplicates_reports_the_group_of_the_first_duplicated_cell() {
    let cells = vec![
        cell(1, 0x10, "X.esm", Some(1), false),
        cell(2, 0x20, "X.esm", None, false),
        cell(3, 0x10, "X.esm", None, false),
        cell(4, 0x20, "X.esm", None, true),
        cell(5, 0x10, "X.esm", None, false),
        cell(6, 0x10, "Y.esm", None, false),
        cell(7, 0x20, "X.esm", None, false),
    ];
    assert_eq!(
        find_duplicates(&cells),
        Some(CellDuplicates {
            ids: vec![
                CellId { id: 2, is_base_game: false },
                CellId { id: 4, is_base_game: true },
                CellId { id: 7, is_base_game: false },
            ],
            form_id: 0x20,
            master: "X.esm".to_string(),
        })
    );
}

#[test]
fn exterior_cells_are_never_duplicates() {
    let cells = vec![
        cell(1, 0x10, "X.esm", Some(1), false),
        cell(2, 0x10, "X.esm", Some(1), false),
        cell(3, 0x10, "X.esm", None, false),
        cell(4, 0x10, "Y.esm", None, false),
        cell(5, 0x11, "X.esm", None, false),
    ];
    assert_eq!(find_duplicates(&cells), None);
    assert_eq!(find_duplicates(&vec![]), None);
}

#[test]
fn two_interior_cells_collapse_into_the_base_game_cell() {
    let mut cells = vec![cell(7, 0x10, "X.esm", None, true), cell(9, 0x10, "X.esm", None, false)];
    let mut links = vec![link(1, 100, 7), link(2, 100, 9), link(3, 200, 9), link(4, 300, 7)];
    let kept = cells[0].clone();
    assert_eq!(deduplicate_interior_cells(&mut cells, &mut links, t(50)), Ok(1));
    assert_eq!(cells, vec![kept]);
    assert!(links.iter().all(|l| l.cell_id == 7));
    let mut plugins: Vec<i32> = links.iter().map(|l| l.plugin_id).collect();
    plugins.sort();
    assert_eq!(plugins, vec![100, 200, 300]);
    let by_plugin = |p: i32| links.iter().find(|l| l.plugin_id == p).unwrap();
    assert_eq!(by_plugin(100).id, 1);
    assert_eq!(by_plugin(200).id, 3);
    assert_eq!(by_plugin(200).updated_at, t(50));
    assert_eq!(by_plugin(200).editor_id, Some("E3".to_string()));
    assert_eq!(by_plugin(200).created_at, t(1));
}

#[test]
fn the_base_game_cell_is_kept_wherever_it_stands() {
    let mut cells = vec![
        cell(9, 0x10, "X.esm", None, false),
        cell(8, 0x10, "X.esm", None, false),
        cell(7, 0x10, "X.esm", None, true),
    ];
    let mut links = vec![link(1, 100, 9), link(2, 100, 8)];
    assert_eq!(deduplicate_interior_cells(&mut cells, &mut links, t(50)), Ok(1));
    assert_eq!(ids(&cells), vec![7]);
    assert_eq!(links.len(), 1);
    assert_eq!((links[0].id, links[0].cell_id), (1, 7));
}

#[test]
fn without_a_base_game_cell_the_first_of_the_group_is_kept() {
    let mut cells = vec![
        cell(9, 0x10, "X.esm", None, false),
        cell(3, 0x10, "X.esm", None, false),
    ];
    let mut links = vec![link(5, 100, 3), link(4, 100, 9), link(6, 200, 3)];
    assert_eq!(deduplicate_interior_cells(&mut cells, &mut links, t(50)), Ok(1));
    assert_eq!(ids(&cells), vec![9]);
    let got: Vec<(i32, i32, i32)> = links.iter().map(|l| (l.id, l.plugin_id, l.cell_id)).collect();
    assert_eq!(got, vec![(4, 100, 9), (6, 200, 9)]);
}

#[test]
fn every_group_is_collapsed_and_other_cells_are_left_alone() {
    let mut cells = vec![
        cell(1, 0x10, "X.esm", Some(1), false),
        cell(2, 0x20, "X.esm", None, false),
        cell(3, 0x10, "X.esm", None, false),
        cell(4, 0x20, "X.esm", None, true),
        cell(5, 0x10, "X.esm", None, false),
        cell(6, 0x10, "Y.esm", None, false),
        cell(7, 0x20, "X.esm", None, false),
        cell(8, 0x10, "X.esm", Some(1), false),
    ];
    let before = cells.clone();
    let mut links = vec![link(1, 100, 1), link(2, 100, 2), link(3, 100, 7), link(4, 100, 5), link(5, 100, 6)];
    assert_eq!(deduplicate_interior_cells(&mut cells, &mut links, t(50)), Ok(2));
    assert_eq!(ids(&cells), vec![1, 3, 4, 6, 8]);
    for left in &cells {
        assert!(before.contains(left));
    }
    assert_eq!(find_duplicates(&cells), None);
    let got: Vec<(i32, i32)> = links.iter().map(|l| (l.id, l.cell_id)).collect();
    assert_eq!(got, vec![(1, 1), (2, 4), (4, 3), (5, 6)]);
    assert_eq!(links[0].updated_at, t(1));
    assert_eq!(links[1].updated_at, t(50));
    assert_eq!(links[2].updated_at, t(50));
    assert_eq!(links[3].updated_at, t(1));
    for l in &links {
        assert!(cells.iter().any(|c| c.id == l.cell_id));
    }
}

#[test]
fn a_second_run_changes_nothing() {
    let mut cells = vec![
        cell(7, 0x10, "X.esm", None, true),
        cell(9, 0x10, "X.esm", None, false),
        cell(10, 0x11, "X.esm", None, false),
        cell(11, 0x11, "X.esm", None, false),
    ];
    let mut links = vec![link(1, 100, 7), link(2, 100, 9), link(3, 200, 11)];
    assert_eq!(deduplicate_interior_cells(&mut cells, &mut links, t(50)), Ok(2));
    let cells_once = cells.clone();
    let links_once = links.clone();
    assert_eq!(deduplicate_interior_cells(&mut cells, &mut links, t(90)), Ok(0));
    assert_eq!(cells, cells_once);
    assert_eq!(links, links_once);
}

#[test]
fn a_table_without_duplicates_is_left_as_it_is() {
    let mut cells = vec![cell(1, 0x10, "X.esm", None, false), cell(2, 0x10, "X.esm", Some(3), false)];
    let mut links = vec![link(1, 100, 1), link(2, 100, 1), link(3, 100, 77)];
    let cells_before = cells.clone();
    let links_before = links.clone();
    assert_eq!(deduplicate_interior_cells(&mut cells, &mut links, t(50)), Ok(0));
    assert_eq!(cells, cells_before);
    assert_eq!(links, links_before);
    let mut none: Vec<Cell> = vec![];
    let mut no_links: Vec<PluginCell> = vec![];
    assert_eq!(deduplicate_interior_cells(&mut none, &mut no_links, t(50)), Ok(0));
}

#[test]
fn cells_that_share_an_id_are_refused() {
    let mut cells = vec![
        cell(7, 0x10, "X.esm", None, false),
        cell(7, 0x10, "X.esm", None, false),
    ];
    let mut links = vec![link(1, 100, 7)];
    let cells_before = cells.clone();
    let links_before = links.clone();
    assert_eq!(
        deduplicate_interior_cells(&mut cells, &mut links, t(50)),
        Err(DedupError::DuplicateCellId)
    );
    assert_eq!(cells, cells_before);
    assert_eq!(links, links_before);
}

#[test]
fn apply_group_makes_the_three_changes() {
    let mut cells = vec![
        cell(1, 0x10, "X.esm", None, false),
        cell(2, 0x10, "X.esm", None, false),
        cell(3, 0x99, "X.esm", None, false),
    ];
    let mut links = vec![link(10, 100, 2), link(11, 100, 1), link(12, 100, 3), link(13, 200, 2)];
    apply_group(&mut cells, &mut links, &vec![1, 2], 1, t(50));
    assert_eq!(ids(&cells), vec![1, 3]);
    let got: Vec<(i32, i32, i64)> =
        links.iter().map(|l| (l.id, l.cell_id, l.updated_at.seconds)).collect();
    assert_eq!(got, vec![(10, 1, 50), (12, 3, 1), (13, 1, 50)]);
}

#[test]
fn the_links_left_are_the_oldest_of_each_plugin_in_their_order() {
    let mut cells = vec![
        cell(1, 0x10, "X.esm", None, false),
        cell(2, 0x10, "X.esm", None, false),
        cell(3, 0x30, "X.esm", None, false),
        cell(4, 0x10, "X.esm", Some(9), false),
    ];
    let mut links = vec![
        link(5, 100, 2),
        link(6, 200, 3),
        link(4, 100, 1),
        link(7, 300, 2),
        link(8, 100, 4),
        link(9, 300, 1),
    ];
    let before = links.clone();
    assert_eq!(deduplicate_interior_cells(&mut cells, &mut links, t(50)), Ok(1));
    assert_eq!(ids(&cells), vec![1, 3, 4]);
    let repointed = |l: &PluginCell| PluginCell { cell_id: 1, updated_at: t(50), ..l.clone() };
    assert_eq!(
        links,
        vec![before[1].clone(), repointed(&before[2]), repointed(&before[3]), before[4].clone()]
    );
}

//! Collapsing interior cells that were stored more than once.
//!
//! Interior cells have no worldspace, and for a time the store did not
//! hold two interior cells of one form id and master to be the same cell.
//! This repair picks one cell of each such group, points every link of
//! the others at it, and removes the others.

use vstd::prelude::*;
use std::collections::HashSet;
use crate::lemmas::{
    lemma_filter_drops, lemma_filter_empty, lemma_filter_keeps, lemma_filter_keeps_order,
    lemma_filter_map_nothing, lemma_filter_map_twice, lemma_filter_member, lemma_filter_single, lemma_filter_step,
    lemma_filter_two, lemma_filter_twice,
};
use crate::models::cell::Cell;
use crate::models::id_set;
use crate::models::plugin_cell::{cell_exists, references_hold, PluginCell};
use crate::text::str_eq;
use crate::time::Timestamp;

verus! {

/// The number of groups that a caller who pages through the groups asks
/// for at a time.
pub const PAGE_SIZE: usize = 100;

/// The id of a cell with its base-game mark: what the search for
/// duplicates reports of each cell of a group.
#[derive(Debug, Clone, Copy, PartialEq, Eq, Structural)]
pub struct CellId {
    pub id: i32,
    pub is_base_game: bool,
}

/// A group of interior cells that share form id and master.
#[derive(Debug, Clone, PartialEq)]
pub struct CellDuplicates {
    /// The cells of the group, in the order of the table.
    pub ids: Vec<CellId>,
    pub form_id: i32,
    pub master: String,
}

/// Why the repair was not made.
#[derive(Debug, Clone, Copy, PartialEq, Eq, Structural)]
pub enum DedupError {
    /// Two cells share an id: the table of cells is not one that the
    /// store could hold.
    DuplicateCellId,
}

/// Whether a cell is an interior cell of the given form id and master.
pub open spec fn in_group(cell: Cell, form_id: i32, master: Seq<char>) -> bool {
    cell.world_id is None && cell.form_id == form_id && cell.master@ == master
}

/// Whether two cells are interior cells of one form id and master.
pub open spec fn same_interior_cell(a: Cell, b: Cell) -> bool {
    a.world_id is None && in_group(b, a.form_id, a.master@)
}

/// No interior cell is stored twice.
pub open spec fn no_interior_duplicates(cells: Seq<Cell>) -> bool {
    forall|i: int, j: int|
        0 <= i < j < cells.len() ==> !same_interior_cell(#[trigger] cells[i], #[trigger] cells[j])
}

/// No two cells share an id.
pub open spec fn cell_ids_unique(cells: Seq<Cell>) -> bool {
    forall|i: int, j: int|
        0 <= i < j < cells.len() ==> (#[trigger] cells[i]).id != (#[trigger] cells[j]).id
}

/// What the search reports of a cell.
pub open spec fn cell_id_of(cell: Cell) -> CellId {
    CellId { id: cell.id, is_base_game: cell.is_base_game }
}

/// The cells of a group, in the order of the table.
pub open spec fn group_of(cells: Seq<Cell>, form_id: i32, master: Seq<char>) -> Seq<CellId> {
    cells.filter(|c: Cell| in_group(c, form_id, master)).map_values(|c: Cell| cell_id_of(c))
}

/// Whether the cell at a position is stored again further on.
pub open spec fn has_later_twin(cells: Seq<Cell>, i: int) -> bool {
    exists|j: int| i < j < cells.len() && same_interior_cell(cells[i], #[trigger] cells[j])
}

/// The position of the first cell of a group that is marked as a cell of
/// the base game.
pub open spec fn first_base_game(ids: Seq<CellId>) -> Option<int>
    decreases ids.len(),
{
    if ids.len() == 0 {
        None
    } else if first_base_game(ids.drop_last()) is Some {
        first_base_game(ids.drop_last())
    } else if ids.last().is_base_game {
        Some(ids.len() - 1)
    } else {
        None
    }
}

/// The cell of a group that is kept: the first that is marked as a cell of
/// the base game, or the first of all where none is.
pub open spec fn chosen_of(ids: Seq<CellId>) -> Option<CellId> {
    if ids.len() == 0 {
        None
    } else {
        match first_base_game(ids) {
            Some(i) => Some(ids[i]),
            None => Some(ids[0]),
        }
    }
}

/// The ids of the cells of a group.
pub open spec fn ids_of(group: Seq<CellId>) -> Seq<i32> {
    group.map_values(|c: CellId| c.id)
}

/// Whether a link points at a cell of the group and is not the oldest
/// link of its plugin that does: some link of the same plugin to a cell of
/// the group has a smaller id.
pub open spec fn is_shadowed(links: Seq<PluginCell>, ids: Seq<i32>, link: PluginCell) -> bool {
    ids.contains(link.cell_id) && exists|m: int|
        0 <= m < links.len() && (#[trigger] links[m]).plugin_id == link.plugin_id && ids.contains(
            links[m].cell_id,
        ) && links[m].id < link.id
}

/// A link after the repair of a group: one that points at a cell of the
/// group points at the kept cell and records the moment; any other is as
/// it was.
pub open spec fn repointed(link: PluginCell, ids: Seq<i32>, kept: i32, now: Timestamp)
    -> PluginCell {
    if ids.contains(link.cell_id) {
        PluginCell { cell_id: kept, updated_at: now, ..link }
    } else {
        link
    }
}

/// The links after the repair of a group: of the links of one plugin to
/// cells of the group only the one with the smallest id stays, and every
/// link to a cell of the group then points at the kept cell.
pub open spec fn links_after(links: Seq<PluginCell>, ids: Seq<i32>, kept: i32, now: Timestamp)
    -> Seq<PluginCell> {
    links.filter(|l: PluginCell| !is_shadowed(links, ids, l)).map_values(
        |l: PluginCell| repointed(l, ids, kept, now),
    )
}

/// The cells after the repair of a group: every cell of the group but the
/// kept one is gone.
pub open spec fn cells_after(cells: Seq<Cell>, ids: Seq<i32>, kept: i32) -> Seq<Cell> {
    cells.filter(|c: Cell| !(ids.contains(c.id) && c.id != kept))
}

/// A base-game cell that is found is the first of the group; where none
/// is found, the group holds none.
pub proof fn lemma_first_base_game(ids: Seq<CellId>)
    ensures
        match first_base_game(ids) {
            Some(i) => 0 <= i < ids.len() && ids[i].is_base_game && forall|j: int|
                0 <= j < i ==> !(#[trigger] ids[j]).is_base_game,
            None => forall|j: int| 0 <= j < ids.len() ==> !(#[trigger] ids[j]).is_base_game,
        },
    decreases ids.len(),
{
    if ids.len() > 0 {
        lemma_first_base_game(ids.drop_last());
        match first_base_game(ids.drop_last()) {
            Some(i) => {
                assert(ids.drop_last()[i] == ids[i]);
                assert forall|j: int| 0 <= j < i implies !(#[trigger] ids[j]).is_base_game by {
                    assert(ids.drop_last()[j] == ids[j]);
                }
            },
            None => {
                assert forall|j: int| 0 <= j < ids.len() - 1 implies !(#[trigger] ids[j]).is_base_game by {
                    assert(ids.drop_last()[j] == ids[j]);
                }
            },
        }
    }
}

/// Picks the cell of a group that is kept: a cell of the base game before
/// any other, and among equals the first. An empty group has none.
pub fn choose_cell(ids: &Vec<CellId>) -> (r: Option<CellId>)
    ensures
        r == chosen_of(ids@),
{
    if ids.len() == 0 {
        return None;
    }
    let mut i: usize = 0;
    while i < ids.len()
        invariant
            i <= ids.len(),
            ids@.len() > 0,
            forall|j: int| 0 <= j < i ==> !(#[trigger] ids@[j]).is_base_game,
        decreases ids.len() - i,
    {
        if ids[i].is_base_game {
            proof {
                lemma_first_base_game(ids@);
            }
            return Some(ids[i]);
        }
        i += 1;
    }
    proof {
        lemma_first_base_game(ids@);
    }
    Some(ids[0])
}

/// Whether a cell is an interior cell of the given form id and master.
fn is_in_group(cell: &Cell, form_id: i32, master: &str) -> (r: bool)
    ensures
        r == in_group(*cell, form_id, master@),
{
    cell.world_id.is_none() && cell.form_id == form_id && str_eq(cell.master.as_str(), master)
}

/// Whether the cell at a position is stored again further on.
fn later_twin_exists(cells: &Vec<Cell>, i: usize) -> (r: bool)
    requires
        i < cells.len(),
    ensures
        r == has_later_twin(cells@, i as int),
{
    if cells[i].world_id.is_some() {
        return false;
    }
    let mut j: usize = i + 1;
    while j < cells.len()
        invariant
            i < j <= cells.len(),
            cells@[i as int].world_id is None,
            forall|k: int| i < k < j ==> !same_interior_cell(cells@[i as int], #[trigger] cells@[k]),
        decreases cells.len() - j,
    {
        if is_in_group(&cells[j], cells[i].form_id, cells[i].master.as_str()) {
            return true;
        }
        j += 1;
    }
    false
}

/// The group of the cell at a position: every interior cell of its form
/// id and master, in the order of the table.
fn collect_group(cells: &Vec<Cell>, i: usize) -> (r: CellDuplicates)
    requires
        i < cells.len(),
    ensures
        r.form_id == cells@[i as int].form_id,
        r.master == cells@[i as int].master,
        r.ids@ == group_of(cells@, r.form_id, r.master@),
{
    let form_id: i32 = cells[i].form_id;
    let master = cells[i].master.clone();
    let ghost pred = |c: Cell| in_group(c, form_id, master@);
    let ghost report = |c: Cell| cell_id_of(c);
    let mut ids: Vec<CellId> = Vec::new();
    let mut k: usize = 0;
    proof {
        lemma_filter_empty(cells@.subrange(0, 0), pred);
    }
    while k < cells.len()
        invariant
            k <= cells.len(),
            pred == (|c: Cell| in_group(c, form_id, master@)),
            report == (|c: Cell| cell_id_of(c)),
            ids@ =~= cells@.subrange(0, k as int).filter(pred).map_values(report),
        decreases cells.len() - k,
    {
        proof {
            lemma_filter_step(cells@, pred, k as int);
        }
        if is_in_group(&cells[k], form_id, master.as_str()) {
            ids.push(CellId { id: cells[k].id, is_base_game: cells[k].is_base_game });
        }
        k += 1;
    }
    assert(cells@.subrange(0, cells.len() as int) =~= cells@);
    CellDuplicates { ids, form_id, master }
}

/// Finds the first interior cell that is stored more than once and
/// reports its group, or `None` where no interior cell is stored twice.
pub fn find_duplicates(cells: &Vec<Cell>) -> (r: Option<CellDuplicates>)
    ensures
        match r {
            None => no_interior_duplicates(cells@),
            Some(group) => exists|i: int|
                {
                    &&& 0 <= i < cells@.len()
                    &&& #[trigger] has_later_twin(cells@, i)
                    &&& forall|k: int| 0 <= k < i ==> !has_later_twin(cells@, k)
                    &&& group.form_id == cells@[i].form_id
                    &&& group.master == cells@[i].master
                    &&& group.ids@ == group_of(cells@, group.form_id, group.master@)
                },
        },
{
    let mut i: usize = 0;
    while i < cells.len()
        invariant
            i <= cells.len(),
            forall|k: int| 0 <= k < i ==> !has_later_twin(cells@, k),
        decreases cells.len() - i,
    {
        if later_twin_exists(cells, i) {
            let group = collect_group(cells, i);
            return Some(group);
        }
        i += 1;
    }
    assert forall|a: int, b: int| 0 <= a < b < cells@.len() implies !same_interior_cell(
        #[trigger] cells@[a],
        #[trigger] cells@[b],
    ) by {
        assert(!has_later_twin(cells@, a));
    }
    None
}

/// The ids of the cells of a group.
fn group_ids(group: &Vec<CellId>) -> (r: Vec<i32>)
    ensures
        r@ == ids_of(group@),
{
    let mut out: Vec<i32> = Vec::new();
    let mut i: usize = 0;
    while i < group.len()
        invariant
            i <= group.len(),
            out@ =~= ids_of(group@.subrange(0, i as int)),
        decreases group.len() - i,
    {
        out.push(group[i].id);
        i += 1;
    }
    assert(group@.subrange(0, group.len() as int) =~= group@);
    out
}

/// Whether a link is not the oldest link of its plugin to a cell of the
/// group.
fn shadowed(links: &Vec<PluginCell>, ids: &Vec<i32>, set: &HashSet<i32>, k: usize) -> (r: bool)
    requires
        k < links.len(),
        set@ == ids@.to_set(),
    ensures
        r == is_shadowed(links@, ids@, links@[k as int]),
{
    let link = &links[k];
    if !set.contains(&link.cell_id) {
        return false;
    }
    let mut m: usize = 0;
    while m < links.len()
        invariant
            m <= links.len(),
            k < links.len(),
            *link == links@[k as int],
            set@ == ids@.to_set(),
            ids@.contains(link.cell_id),
            forall|n: int|
                0 <= n < m ==> !((#[trigger] links@[n]).plugin_id == link.plugin_id
                    && ids@.contains(links@[n].cell_id) && links@[n].id < link.id),
        decreases links.len() - m,
    {
        if links[m].plugin_id == link.plugin_id && links[m].id < link.id && set.contains(
            &links[m].cell_id,
        ) {
            return true;
        }
        m += 1;
    }
    false
}

/// Repairs one group: of the links of one plugin to cells of the group
/// only the oldest stays; every link to a cell of the group is pointed at
/// the kept cell; every cell of the group but the kept one is removed.
pub fn apply_group(
    cells: &mut Vec<Cell>,
    links: &mut Vec<PluginCell>,
    ids: &Vec<i32>,
    kept: i32,
    now: Timestamp,
)
    ensures
        final(cells)@ == cells_after(old(cells)@, ids@, kept),
        final(links)@ == links_after(old(links)@, ids@, kept, now),
{
    let set = id_set(ids);
    let ghost stays = |l: PluginCell| !is_shadowed(old(links)@, ids@, l);
    let ghost moved = |l: PluginCell| repointed(l, ids@, kept, now);
    let mut new_links: Vec<PluginCell> = Vec::new();
    let mut k: usize = 0;
    proof {
        lemma_filter_empty(links@.subrange(0, 0), stays);
    }
    while k < links.len()
        invariant
            k <= links.len(),
            links@ == old(links)@,
            set@ == ids@.to_set(),
            stays == (|l: PluginCell| !is_shadowed(old(links)@, ids@, l)),
            moved == (|l: PluginCell| repointed(l, ids@, kept, now)),
            new_links@ =~= links@.subrange(0, k as int).filter(stays).map_values(moved),
        decreases links.len() - k,
    {
        proof {
            lemma_filter_step(links@, stays, k as int);
        }
        if !shadowed(links, ids, &set, k) {
            let link = &links[k];
            if set.contains(&link.cell_id) {
                new_links.push(
                    PluginCell {
                        id: link.id,
                        plugin_id: link.plugin_id,
                        cell_id: kept,
                        file_id: link.file_id,
                        mod_id: link.mod_id,
                        editor_id: link.editor_id.clone(),
                        updated_at: now,
                        created_at: link.created_at,
                    },
                );
            } else {
                new_links.push(link.duplicate());
            }
        }
        k += 1;
    }
    assert(links@.subrange(0, links.len() as int) =~= links@);
    let ghost survives = |c: Cell| !(ids@.contains(c.id) && c.id != kept);
    let mut new_cells: Vec<Cell> = Vec::new();
    let mut i: usize = 0;
    proof {
        lemma_filter_empty(cells@.subrange(0, 0), survives);
    }
    while i < cells.len()
        invariant
            i <= cells.len(),
            cells@ == old(cells)@,
            set@ == ids@.to_set(),
            survives == (|c: Cell| !(ids@.contains(c.id) && c.id != kept)),
            new_cells@ =~= cells@.subrange(0, i as int).filter(survives),
        decreases cells.len() - i,
    {
        proof {
            lemma_filter_step(cells@, survives, i as int);
        }
        if !(set.contains(&cells[i].id) && cells[i].id != kept) {
            new_cells.push(cells[i].duplicate());
        }
        i += 1;
    }
    assert(cells@.subrange(0, cells.len() as int) =~= cells@);
    *links = new_links;
    *cells = new_cells;
}

/// Whether two cells share an id.
fn ids_are_unique(cells: &Vec<Cell>) -> (r: bool)
    ensures
        r == cell_ids_unique(cells@),
{
    let mut j: usize = 0;
    while j < cells.len()
        invariant
            j <= cells.len(),
            forall|a: int, b: int|
                0 <= a < b < j ==> (#[trigger] cells@[a]).id != (#[trigger] cells@[b]).id,
        decreases cells.len() - j,
    {
        let mut i: usize = 0;
        while i < j
            invariant
                i <= j < cells.len(),
                forall|a: int| 0 <= a < i ==> (#[trigger] cells@[a]).id != cells@[j as int].id,
            decreases j - i,
        {
            if cells[i].id == cells[j].id {
                return false;
            }
            i += 1;
        }
        j += 1;
    }
    true
}

/// Whether some cell of the table is a cell of the group with this id
/// and mark.
pub open spec fn reported(cells: Seq<Cell>, form_id: i32, master: Seq<char>, cid: CellId) -> bool {
    exists|k: int|
        0 <= k < cells.len() && in_group(#[trigger] cells[k], form_id, master) && cell_id_of(
            cells[k],
        ) == cid
}

/// Whether some cell of the table is a cell of the group.
pub open spec fn group_left(cells: Seq<Cell>, form_id: i32, master: Seq<char>) -> bool {
    exists|k: int| 0 <= k < cells.len() && in_group(#[trigger] cells[k], form_id, master)
}

/// Every row of `now` is a row of `then`, unchanged.
pub open spec fn rows_from(now: Seq<Cell>, then: Seq<Cell>) -> bool {
    forall|i: int| 0 <= i < now.len() ==> then.contains(#[trigger] now[i])
}

/// Every exterior cell of `then` is a row of `now`, unchanged.
pub open spec fn exterior_kept(now: Seq<Cell>, then: Seq<Cell>) -> bool {
    forall|j: int|
        0 <= j < then.len() && (#[trigger] then[j]).world_id is Some ==> now.contains(then[j])
}

/// Of every interior cell of `then`, a cell of its group is in `now`.
pub open spec fn groups_kept(now: Seq<Cell>, then: Seq<Cell>) -> bool {
    forall|j: int|
        0 <= j < then.len() && (#[trigger] then[j]).world_id is None ==> group_left(
            now,
            then[j].form_id,
            then[j].master@,
        )
}

/// Whether a cell is the cell that is kept of its group, as the group
/// stands in `then`.
pub open spec fn is_kept(then: Seq<Cell>, cell: Cell) -> bool {
    chosen_of(group_of(then, cell.form_id, cell.master@)) == Some(cell_id_of(cell))
}

/// Every interior cell of `now` is the kept cell of its group in `then`.
pub open spec fn only_kept_left(now: Seq<Cell>, then: Seq<Cell>) -> bool {
    forall|i: int| 0 <= i < now.len() && (#[trigger] now[i]).world_id is None ==> is_kept(then, now[i])
}

/// Every interior cell of `now` is the kept cell of its group in `then`,
/// or its group is in `now` as it was in `then`.
pub open spec fn kept_or_untouched(now: Seq<Cell>, then: Seq<Cell>) -> bool {
    forall|i: int|
        0 <= i < now.len() && (#[trigger] now[i]).world_id is None ==> is_kept(then, now[i])
            || group_of(now, now[i].form_id, now[i].master@) == group_of(
            then,
            now[i].form_id,
            now[i].master@,
        )
}

/// Every cell that a group reports is a cell of the group.
pub proof fn lemma_group_reports_members(cells: Seq<Cell>, form_id: i32, master: Seq<char>, n: int)
    requires
        0 <= n < group_of(cells, form_id, master).len(),
    ensures
        reported(cells, form_id, master, group_of(cells, form_id, master)[n]),
{
    let pred = |c: Cell| in_group(c, form_id, master);
    let members = cells.filter(pred);
    lemma_filter_member(cells, pred, n);
    let k = choose|k: int| 0 <= k < cells.len() && #[trigger] cells[k] == members[n];
    assert(in_group(cells[k], form_id, master));
    assert(cell_id_of(cells[k]) == group_of(cells, form_id, master)[n]);
}

/// Every cell of a group is reported among its ids.
pub proof fn lemma_member_is_reported(cells: Seq<Cell>, form_id: i32, master: Seq<char>, k: int)
    requires
        0 <= k < cells.len(),
        in_group(cells[k], form_id, master),
    ensures
        ids_of(group_of(cells, form_id, master)).contains(cells[k].id),
{
    let pred = |c: Cell| in_group(c, form_id, master);
    let members = cells.filter(pred);
    lemma_filter_keeps(cells, pred, k);
    let n = choose|n: int| 0 <= n < members.len() && #[trigger] members[n] == cells[k];
    assert(ids_of(group_of(cells, form_id, master))[n] == cells[k].id);
}

/// Every id that a group reports is the id of a cell of the group.
pub proof fn lemma_reported_is_member(cells: Seq<Cell>, form_id: i32, master: Seq<char>, id: i32)
    requires
        ids_of(group_of(cells, form_id, master)).contains(id),
    ensures
        exists|k: int|
            0 <= k < cells.len() && in_group(#[trigger] cells[k], form_id, master) && cells[k].id
                == id,
{
    let group = group_of(cells, form_id, master);
    let ids = ids_of(group);
    let n = choose|n: int| 0 <= n < ids.len() && ids[n] == id;
    lemma_group_reports_members(cells, form_id, master, n);
    let k = choose|k: int|
        0 <= k < cells.len() && in_group(#[trigger] cells[k], form_id, master) && cell_id_of(
            cells[k],
        ) == group[n];
    assert(cells[k].id == id);
}

/// A filter of cells that share no id leaves cells that share no id.
pub proof fn lemma_filter_keeps_ids_unique(cells: Seq<Cell>, pred: spec_fn(Cell) -> bool)
    requires
        cell_ids_unique(cells),
    ensures
        cell_ids_unique(cells.filter(pred)),
    decreases cells.len(),
{
    reveal(Seq::filter);
    if cells.len() > 0 {
        let front = cells.drop_last();
        assert forall|a: int, b: int| 0 <= a < b < front.len() implies (#[trigger] front[a]).id != (
        #[trigger] front[b]).id by {
            assert(front[a] == cells[a]);
            assert(front[b] == cells[b]);
        }
        lemma_filter_keeps_ids_unique(front, pred);
        let kept = cells.filter(pred);
        assert forall|a: int, b: int| 0 <= a < b < kept.len() implies (#[trigger] kept[a]).id != (
        #[trigger] kept[b]).id by {
            if b == front.filter(pred).len() {
                lemma_filter_member(front, pred, a);
                let j = choose|j: int| 0 <= j < front.len() && #[trigger] front[j] == front.filter(
                    pred,
                )[a];
                assert(front[j] == cells[j]);
                assert(cells[j].id != cells[cells.len() - 1].id);
            } else {
                assert(kept[a] == front.filter(pred)[a]);
                assert(kept[b] == front.filter(pred)[b]);
            }
        }
    }
}

/// A cell outside the group outlives the repair of the group, and so does
/// the kept cell.
pub proof fn lemma_cell_outlives_repair(
    cells: Seq<Cell>,
    form_id: i32,
    master: Seq<char>,
    kept: i32,
    j: int,
)
    requires
        cell_ids_unique(cells),
        0 <= j < cells.len(),
        !in_group(cells[j], form_id, master) || cells[j].id == kept,
    ensures
        cells_after(cells, ids_of(group_of(cells, form_id, master)), kept).contains(cells[j]),
{
    let ids = ids_of(group_of(cells, form_id, master));
    let survives = |c: Cell| !(ids.contains(c.id) && c.id != kept);
    if ids.contains(cells[j].id) && cells[j].id != kept {
        lemma_reported_is_member(cells, form_id, master, cells[j].id);
        let k = choose|k: int|
            0 <= k < cells.len() && in_group(#[trigger] cells[k], form_id, master) && cells[k].id
                == cells[j].id;
        if k < j {
            assert(cells[k].id != cells[j].id);
        } else if j < k {
            assert(cells[j].id != cells[k].id);
        }
    }
    lemma_filter_keeps(cells, survives, j);
}

/// Every cell that is left after the repair of a group was there before,
/// and is outside the group or is the kept cell.
pub proof fn lemma_cell_left_was_there(
    cells: Seq<Cell>,
    form_id: i32,
    master: Seq<char>,
    kept: i32,
    i: int,
)
    requires
        0 <= i < cells_after(cells, ids_of(group_of(cells, form_id, master)), kept).len(),
    ensures
        ({
            let after = cells_after(cells, ids_of(group_of(cells, form_id, master)), kept);
            cells.contains(after[i]) && (in_group(after[i], form_id, master) ==> after[i].id
                == kept)
        }),
{
    let ids = ids_of(group_of(cells, form_id, master));
    let survives = |c: Cell| !(ids.contains(c.id) && c.id != kept);
    let after = cells.filter(survives);
    lemma_filter_member(cells, survives, i);
    let j = choose|j: int| 0 <= j < cells.len() && #[trigger] cells[j] == after[i];
    if in_group(after[i], form_id, master) {
        lemma_member_is_reported(cells, form_id, master, j);
    }
}

/// The repair of a group with two cells or more leaves fewer cells.
pub proof fn lemma_repair_removes(
    cells: Seq<Cell>,
    form_id: i32,
    master: Seq<char>,
    kept: i32,
    a: int,
    b: int,
)
    requires
        cell_ids_unique(cells),
        0 <= a < b < cells.len(),
        in_group(cells[a], form_id, master),
        in_group(cells[b], form_id, master),
    ensures
        cells_after(cells, ids_of(group_of(cells, form_id, master)), kept).len() < cells.len(),
{
    let ids = ids_of(group_of(cells, form_id, master));
    let survives = |c: Cell| !(ids.contains(c.id) && c.id != kept);
    lemma_member_is_reported(cells, form_id, master, a);
    lemma_member_is_reported(cells, form_id, master, b);
    assert(cells[a].id != cells[b].id);
    if cells[a].id != kept {
        lemma_filter_drops(cells, survives, a);
    } else {
        lemma_filter_drops(cells, survives, b);
    }
}

/// What holds of the cells between the start of the repair and any round
/// of it still holds after the round.
pub proof fn lemma_round_keeps_cells(
    then: Seq<Cell>,
    before: Seq<Cell>,
    form_id: i32,
    master: Seq<char>,
    kept: i32,
)
    requires
        cell_ids_unique(before),
        ids_of(group_of(before, form_id, master)).contains(kept),
        rows_from(before, then),
        exterior_kept(before, then),
        groups_kept(before, then),
    ensures
        ({
            let after = cells_after(before, ids_of(group_of(before, form_id, master)), kept);
            &&& cell_ids_unique(after)
            &&& rows_from(after, then)
            &&& exterior_kept(after, then)
            &&& groups_kept(after, then)
        }),
{
    let ids = ids_of(group_of(before, form_id, master));
    let after = cells_after(before, ids, kept);
    lemma_filter_keeps_ids_unique(before, |c: Cell| !(ids.contains(c.id) && c.id != kept));
    lemma_reported_is_member(before, form_id, master, kept);
    let kept_at = choose|k: int|
        0 <= k < before.len() && in_group(#[trigger] before[k], form_id, master) && before[k].id
            == kept;
    lemma_cell_outlives_repair(before, form_id, master, kept, kept_at);
    let kept_now = choose|i: int| 0 <= i < after.len() && after[i] == before[kept_at];
    assert forall|i: int| 0 <= i < after.len() implies then.contains(#[trigger] after[i]) by {
        lemma_cell_left_was_there(before, form_id, master, kept, i);
        let m = choose|m: int| 0 <= m < before.len() && before[m] == after[i];
        assert(then.contains(before[m]));
    }
    assert forall|j: int|
        0 <= j < then.len() && (#[trigger] then[j]).world_id is Some implies after.contains(
        then[j],
    ) by {
        assert(before.contains(then[j]));
        let m = choose|m: int| 0 <= m < before.len() && before[m] == then[j];
        lemma_cell_outlives_repair(before, form_id, master, kept, m);
    }
    assert forall|j: int|
        0 <= j < then.len() && (#[trigger] then[j]).world_id is None implies group_left(
        after,
        then[j].form_id,
        then[j].master@,
    ) by {
        assert(group_left(before, then[j].form_id, then[j].master@));
        let m = choose|m: int|
            0 <= m < before.len() && in_group(
                #[trigger] before[m],
                then[j].form_id,
                then[j].master@,
            );
        if in_group(before[m], form_id, master) {
            assert(in_group(after[kept_now], then[j].form_id, then[j].master@));
        } else {
            lemma_cell_outlives_repair(before, form_id, master, kept, m);
            let i = choose|i: int| 0 <= i < after.len() && after[i] == before[m];
            assert(in_group(after[i], then[j].form_id, then[j].master@));
        }
    }
}

/// The repair of one group leaves every other group as it was.
pub proof fn lemma_other_groups_untouched(
    cells: Seq<Cell>,
    form_id: i32,
    master: Seq<char>,
    kept: i32,
    other_form_id: i32,
    other_master: Seq<char>,
)
    requires
        cell_ids_unique(cells),
        other_form_id != form_id || other_master != master,
    ensures
        group_of(
            cells_after(cells, ids_of(group_of(cells, form_id, master)), kept),
            other_form_id,
            other_master,
        ) == group_of(cells, other_form_id, other_master),
{
    let ids = ids_of(group_of(cells, form_id, master));
    let survives = |c: Cell| !(ids.contains(c.id) && c.id != kept);
    let other = |c: Cell| in_group(c, other_form_id, other_master);
    assert forall|j: int| 0 <= j < cells.len() && other(#[trigger] cells[j]) implies survives(
        cells[j],
    ) by {
        if ids.contains(cells[j].id) {
            lemma_reported_is_member(cells, form_id, master, cells[j].id);
            let k = choose|k: int|
                0 <= k < cells.len() && in_group(#[trigger] cells[k], form_id, master)
                    && cells[k].id == cells[j].id;
            if k < j {
                assert(cells[k].id != cells[j].id);
            } else if j < k {
                assert(cells[j].id != cells[k].id);
            }
        }
    }
    lemma_filter_twice(cells, survives, other);
}

/// A cell whose group holds no other cell is the kept cell of its group.
pub proof fn lemma_lone_cell_is_kept(cells: Seq<Cell>, i: int)
    requires
        0 <= i < cells.len(),
        cells[i].world_id is None,
        forall|j: int| 0 <= j < cells.len() && j != i ==> !same_interior_cell(cells[i], #[trigger] cells[j]),
    ensures
        is_kept(cells, cells[i]),
{
    let form_id = cells[i].form_id;
    let master = cells[i].master@;
    let pred = |c: Cell| in_group(c, form_id, master);
    lemma_filter_single(cells, pred, i);
    let group = group_of(cells, form_id, master);
    assert(group =~= seq![cell_id_of(cells[i])]);
    lemma_first_base_game(group);
}

/// What is known of the kept cells between the start of the repair and
/// any round of it is known after the round too: every interior cell is
/// the kept cell of its group as the group stood at the start, or its
/// group has not been touched yet.
pub proof fn lemma_round_keeps_chosen(
    then: Seq<Cell>,
    before: Seq<Cell>,
    form_id: i32,
    master: Seq<char>,
    kept: CellId,
    first: int,
    twin: int,
)
    requires
        cell_ids_unique(before),
        kept_or_untouched(before, then),
        chosen_of(group_of(before, form_id, master)) == Some(kept),
        ids_of(group_of(before, form_id, master)).contains(kept.id),
        0 <= first < twin < before.len(),
        in_group(before[first], form_id, master),
        in_group(before[twin], form_id, master),
    ensures
        kept_or_untouched(
            cells_after(before, ids_of(group_of(before, form_id, master)), kept.id),
            then,
        ),
        group_of(before, form_id, master) == group_of(then, form_id, master),
        forall|i: int|
            0 <= i < cells_after(
                before,
                ids_of(group_of(before, form_id, master)),
                kept.id,
            ).len() && in_group(
                #[trigger] cells_after(
                    before,
                    ids_of(group_of(before, form_id, master)),
                    kept.id,
                )[i],
                form_id,
                master,
            ) ==> is_kept(
                then,
                cells_after(before, ids_of(group_of(before, form_id, master)), kept.id)[i],
            ),
{
    let ids = ids_of(group_of(before, form_id, master));
    let after = cells_after(before, ids, kept.id);
    let group = group_of(before, form_id, master);
    // the group that is repaired had not been touched: two of its cells are left
    assert(group == group_of(then, form_id, master)) by {
        assert(before[first].id != before[twin].id);
        assert(before[first].master@ == master && before[twin].master@ == master);
        if is_kept(then, before[first]) && is_kept(then, before[twin]) {
            assert(cell_id_of(before[first]) == cell_id_of(before[twin]));
        }
    }
    lemma_first_base_game(group);
    let n = if first_base_game(group) is Some {
        first_base_game(group)->0
    } else {
        0
    };
    assert(group[n] == kept);
    lemma_group_reports_members(before, form_id, master, n);
    let kept_at = choose|k: int|
        0 <= k < before.len() && in_group(#[trigger] before[k], form_id, master) && cell_id_of(
            before[k],
        ) == kept;
    assert forall|i: int| 0 <= i < after.len() && (#[trigger] after[i]).world_id
        is None implies is_kept(then, after[i]) || group_of(
        after,
        after[i].form_id,
        after[i].master@,
    ) == group_of(then, after[i].form_id, after[i].master@) by {
        lemma_cell_left_was_there(before, form_id, master, kept.id, i);
        let m = choose|m: int| 0 <= m < before.len() && before[m] == after[i];
        if in_group(after[i], form_id, master) {
            assert(before[m].id == kept.id);
            if m < kept_at {
                assert(before[m].id != before[kept_at].id);
            } else if kept_at < m {
                assert(before[kept_at].id != before[m].id);
            }
            assert(cell_id_of(after[i]) == kept);
            assert(after[i].master@ == master);
            assert(is_kept(then, after[i]));
        } else {
            lemma_other_groups_untouched(
                before,
                form_id,
                master,
                kept.id,
                after[i].form_id,
                after[i].master@,
            );
            assert(is_kept(then, before[m]) || group_of(
                before,
                before[m].form_id,
                before[m].master@,
            ) == group_of(then, before[m].form_id, before[m].master@));
        }
    }
    assert forall|i: int| 0 <= i < after.len() && in_group(
        #[trigger] after[i],
        form_id,
        master,
    ) implies is_kept(then, after[i]) by {
        lemma_cell_left_was_there(before, form_id, master, kept.id, i);
        let m = choose|m: int| 0 <= m < before.len() && before[m] == after[i];
        if m < kept_at {
            assert(before[m].id != before[kept_at].id);
        } else if kept_at < m {
            assert(before[kept_at].id != before[m].id);
        }
        assert(cell_id_of(after[i]) == kept);
        assert(after[i].master@ == master);
    }
}

/// Once no interior cell is stored twice, every interior cell that is
/// left is the kept cell of its group as the group stood at the start.
pub proof fn lemma_all_kept_in_the_end(then: Seq<Cell>, now: Seq<Cell>)
    requires
        no_interior_duplicates(now),
        kept_or_untouched(now, then),
    ensures
        only_kept_left(now, then),
{
    assert forall|i: int| 0 <= i < now.len() && (#[trigger] now[i]).world_id is None implies is_kept(
        then,
        now[i],
    ) by {
        if !is_kept(then, now[i]) {
            assert forall|j: int| 0 <= j < now.len() && j != i implies !same_interior_cell(
                now[i],
                #[trigger] now[j],
            ) by {
                if j < i {
                    assert(!same_interior_cell(now[j], now[i]));
                } else {
                    assert(!same_interior_cell(now[i], now[j]));
                }
            }
            lemma_lone_cell_is_kept(now, i);
        }
    }
}

/// The repair of a group breaks no link: where every link pointed at a
/// stored cell before, every link does afterwards.
pub proof fn lemma_repair_keeps_references(
    cells: Seq<Cell>,
    links: Seq<PluginCell>,
    form_id: i32,
    master: Seq<char>,
    kept: i32,
    now: Timestamp,
)
    requires
        cell_ids_unique(cells),
        ids_of(group_of(cells, form_id, master)).contains(kept),
        references_hold(links, cells),
    ensures
        references_hold(
            links_after(links, ids_of(group_of(cells, form_id, master)), kept, now),
            cells_after(cells, ids_of(group_of(cells, form_id, master)), kept),
        ),
{
    let ids = ids_of(group_of(cells, form_id, master));
    let after_cells = cells_after(cells, ids, kept);
    let stays = |l: PluginCell| !is_shadowed(links, ids, l);
    let kept_links = links.filter(stays);
    let after_links = links_after(links, ids, kept, now);
    lemma_reported_is_member(cells, form_id, master, kept);
    let kept_at = choose|k: int|
        0 <= k < cells.len() && in_group(#[trigger] cells[k], form_id, master) && cells[k].id
            == kept;
    lemma_cell_outlives_repair(cells, form_id, master, kept, kept_at);
    let kept_after = choose|i: int| 0 <= i < after_cells.len() && after_cells[i] == cells[kept_at];
    assert forall|n: int| 0 <= n < after_links.len() implies cell_exists(
        after_cells,
        (#[trigger] after_links[n]).cell_id,
    ) by {
        lemma_filter_member(links, stays, n);
        let m = choose|m: int| 0 <= m < links.len() && #[trigger] links[m] == kept_links[n];
        let link = links[m];
        assert(after_links[n] == repointed(link, ids, kept, now));
        if ids.contains(link.cell_id) {
            assert(after_cells[kept_after].id == kept);
        } else {
            assert(cell_exists(cells, link.cell_id));
            let j = choose|j: int| 0 <= j < cells.len() && (#[trigger] cells[j]).id == link.cell_id;
            if in_group(cells[j], form_id, master) {
                lemma_member_is_reported(cells, form_id, master, j);
            }
            lemma_cell_outlives_repair(cells, form_id, master, kept, j);
            let i = choose|i: int| 0 <= i < after_cells.len() && after_cells[i] == cells[j];
            assert(after_cells[i].id == link.cell_id);
        }
    }
}

/// After the repair of a group no plugin has two links to the kept cell,
/// where no two links shared an id before.
pub proof fn lemma_one_link_per_plugin(
    links: Seq<PluginCell>,
    ids: Seq<i32>,
    kept: i32,
    now: Timestamp,
)
    requires
        ids.contains(kept),
        forall|a: int, b: int|
            0 <= a < b < links.len() ==> (#[trigger] links[a]).id != (#[trigger] links[b]).id,
    ensures
        forall|a: int, b: int|
            0 <= a < b < links_after(links, ids, kept, now).len() ==> !((#[trigger] links_after(
                links,
                ids,
                kept,
                now,
            )[a]).cell_id == kept && (#[trigger] links_after(links, ids, kept, now)[b]).cell_id
                == kept && links_after(links, ids, kept, now)[a].plugin_id == links_after(
                links,
                ids,
                kept,
                now,
            )[b].plugin_id),
{
    let stays = |l: PluginCell| !is_shadowed(links, ids, l);
    let left = links.filter(stays);
    let after = links_after(links, ids, kept, now);
    crate::lemmas::lemma_filter_keeps_order(links, stays);
    let at = choose|at: Seq<int>|
        #![trigger at.len()]
        {
            &&& at.len() == links.filter(stays).len()
            &&& forall|k: int| 0 <= k < at.len() ==> 0 <= #[trigger] at[k] < links.len()
            &&& forall|k: int|
                0 <= k < at.len() ==> links.filter(stays)[k] == links[#[trigger] at[k]]
            &&& forall|k: int, l: int| 0 <= k < l < at.len() ==> at[k] < at[l]
            &&& forall|j: int|
                0 <= j < links.len() && stays(#[trigger] links[j]) ==> exists|k: int|
                    0 <= k < at.len() && #[trigger] at[k] == j
        };
    assert forall|a: int, b: int| 0 <= a < b < after.len() implies !((#[trigger] after[a]).cell_id
        == kept && (#[trigger] after[b]).cell_id == kept && after[a].plugin_id
        == after[b].plugin_id) by {
        let la = links[at[a]];
        let lb = links[at[b]];
        assert(left[a] == la);
        assert(left[b] == lb);
        assert(at[a] < at[b]);
        assert(la.id != lb.id);
        lemma_filter_member(links, stays, a);
        lemma_filter_member(links, stays, b);
        if after[a].cell_id == kept && after[b].cell_id == kept && after[a].plugin_id
            == after[b].plugin_id {
            assert(ids.contains(la.cell_id));
            assert(ids.contains(lb.cell_id));
            if la.id < lb.id {
                assert(is_shadowed(links, ids, lb));
            } else {
                assert(is_shadowed(links, ids, la));
            }
        }
    }
}

/// The form id and master of the interior cell with the given id, where
/// there is one.
pub open spec fn interior_key_of(then: Seq<Cell>, id: i32) -> Option<(i32, Seq<char>)> {
    if exists|i: int|
        0 <= i < then.len() && (#[trigger] then[i]).id == id && then[i].world_id is None {
        let i = choose|i: int|
            0 <= i < then.len() && (#[trigger] then[i]).id == id && then[i].world_id is None;
        Some((then[i].form_id, then[i].master@))
    } else {
        None
    }
}

/// Whether the group of a form id and master holds two cells or more, and
/// so is collapsed by the repair.
pub open spec fn is_collapsed(then: Seq<Cell>, key: (i32, Seq<char>)) -> bool {
    group_of(then, key.0, key.1).len() >= 2
}

/// The groups that the repair collapses.
pub open spec fn collapsed_keys(then: Seq<Cell>) -> Set<(i32, Seq<char>)> {
    Set::new(|key: (i32, Seq<char>)| is_collapsed(then, key))
}

/// Whether the id is that of an interior cell of one of the given groups.
pub open spec fn in_groups(then: Seq<Cell>, groups: Set<(i32, Seq<char>)>, id: i32) -> bool {
    interior_key_of(then, id) matches Some(key) && groups.contains(key)
}

/// The id of the cell that is kept of the group of the interior cell with
/// the given id.
pub open spec fn kept_id_of(then: Seq<Cell>, id: i32) -> i32 {
    let key = interior_key_of(then, id)->0;
    chosen_of(group_of(then, key.0, key.1))->0.id
}

/// Whether a link is removed by the repair of the given groups: it points
/// at a cell of one of them, and a link of the same plugin to a cell of the
/// same group has a smaller id.
pub open spec fn is_superseded(
    then: Seq<Cell>,
    groups: Set<(i32, Seq<char>)>,
    links: Seq<PluginCell>,
    link: PluginCell,
) -> bool {
    in_groups(then, groups, link.cell_id) && exists|m: int|
        0 <= m < links.len() && (#[trigger] links[m]).plugin_id == link.plugin_id
            && interior_key_of(then, links[m].cell_id) == interior_key_of(then, link.cell_id)
            && links[m].id < link.id
}

/// A link after the repair of the given groups: one that pointed at a cell
/// of one of them points at the kept cell of that group and carries the
/// moment of the repair; any other is as it was.
pub open spec fn repaired(
    then: Seq<Cell>,
    groups: Set<(i32, Seq<char>)>,
    link: PluginCell,
    now: Timestamp,
) -> PluginCell {
    if in_groups(then, groups, link.cell_id) {
        PluginCell { cell_id: kept_id_of(then, link.cell_id), updated_at: now, ..link }
    } else {
        link
    }
}

/// The links after the repair of the given groups, in the order in which
/// they stood.
pub open spec fn links_repaired_in(
    then: Seq<Cell>,
    groups: Set<(i32, Seq<char>)>,
    links: Seq<PluginCell>,
    now: Timestamp,
) -> Seq<PluginCell> {
    links.filter(|l: PluginCell| !is_superseded(then, groups, links, l)).map_values(
        |l: PluginCell| repaired(then, groups, l, now),
    )
}

/// The links after the whole repair.
///
/// Of the links of one plugin to the cells of one collapsed group only the
/// one with the smallest id stays. A link that stays and pointed at a cell
/// of a collapsed group points at the kept cell of the group and carries
/// the moment of the repair; its id, plugin, file, mod, editor id and
/// moment of creation are as they were. Every other link is as it was, and
/// the links stand in the order in which they stood.
pub open spec fn links_repaired(then: Seq<Cell>, links: Seq<PluginCell>, now: Timestamp) -> Seq<
    PluginCell,
> {
    links_repaired_in(then, collapsed_keys(then), links, now)
}

/// Whether a link after the repair is the given link of before it: id,
/// plugin, file, mod, editor id and moment of creation are the same; where
/// the link pointed at a cell of a collapsed group it now points at the
/// kept cell of that group and carries the moment of the repair; where it
/// did not, nothing of it has changed.
pub open spec fn is_repair_of(then: Seq<Cell>, before: PluginCell, after: PluginCell, now: Timestamp)
    -> bool {
    &&& after.id == before.id
    &&& after.plugin_id == before.plugin_id
    &&& after.file_id == before.file_id
    &&& after.mod_id == before.mod_id
    &&& after.editor_id == before.editor_id
    &&& after.created_at == before.created_at
    &&& if in_groups(then, collapsed_keys(then), before.cell_id) {
        after.cell_id == kept_id_of(then, before.cell_id) && after.updated_at == now
    } else {
        after == before
    }
}

/// Whether no link of the same plugin to a cell of the same group has a
/// smaller id than the given link.
pub open spec fn is_oldest_of_its_plugin(then: Seq<Cell>, links: Seq<PluginCell>, link: PluginCell)
    -> bool {
    forall|m: int|
        0 <= m < links.len() && (#[trigger] links[m]).plugin_id == link.plugin_id
            && interior_key_of(then, links[m].cell_id) == interior_key_of(then, link.cell_id)
            ==> links[m].id >= link.id
}

/// Every link that is left after the repair is a link that was there: it
/// comes from a link that no older link of its plugin to the same group
/// stood before, and differs from it at most in the cell it points at and
/// in the moment of its last change.
pub proof fn lemma_link_left_was_there(
    then: Seq<Cell>,
    links: Seq<PluginCell>,
    now: Timestamp,
    k: int,
)
    requires
        0 <= k < links_repaired(then, links, now).len(),
    ensures
        exists|m: int|
            0 <= m < links.len() && is_repair_of(
                then,
                #[trigger] links[m],
                links_repaired(then, links, now)[k],
                now,
            ) && (in_groups(then, collapsed_keys(then), links[m].cell_id)
                ==> is_oldest_of_its_plugin(then, links, links[m])),
{
    let groups = collapsed_keys(then);
    let keep = |l: PluginCell| !is_superseded(then, groups, links, l);
    lemma_filter_member(links, keep, k);
    let m = choose|m: int| 0 <= m < links.len() && #[trigger] links[m] == links.filter(keep)[k];
    assert(is_repair_of(then, links[m], links_repaired(then, links, now)[k], now));
}

/// A link that did not point at a cell of a collapsed group is left as it
/// was.
pub proof fn lemma_other_link_stays(then: Seq<Cell>, links: Seq<PluginCell>, now: Timestamp, m: int)
    requires
        0 <= m < links.len(),
        !in_groups(then, collapsed_keys(then), links[m].cell_id),
    ensures
        links_repaired(then, links, now).contains(links[m]),
{
    let groups = collapsed_keys(then);
    let keep = |l: PluginCell| !is_superseded(then, groups, links, l);
    lemma_filter_keeps(links, keep, m);
    let k = choose|k: int| 0 <= k < links.filter(keep).len() && #[trigger] links.filter(keep)[k] == links[m];
    assert(links_repaired(then, links, now)[k] == links[m]);
}

/// Of the links of one plugin to the cells of one collapsed group the
/// oldest is left, pointing at the kept cell of the group and carrying the
/// moment of the repair.
pub proof fn lemma_oldest_link_stays(then: Seq<Cell>, links: Seq<PluginCell>, now: Timestamp, m: int)
    requires
        0 <= m < links.len(),
        in_groups(then, collapsed_keys(then), links[m].cell_id),
        is_oldest_of_its_plugin(then, links, links[m]),
    ensures
        links_repaired(then, links, now).contains(
            (PluginCell {
                cell_id: kept_id_of(then, links[m].cell_id),
                updated_at: now,
                ..links[m]
            }),
        ),
{
    let groups = collapsed_keys(then);
    let keep = |l: PluginCell| !is_superseded(then, groups, links, l);
    lemma_filter_keeps(links, keep, m);
    let k = choose|k: int| 0 <= k < links.filter(keep).len() && #[trigger] links.filter(keep)[k] == links[m];
    assert(links_repaired(then, links, now)[k] == repaired(then, groups, links[m], now));
}

/// A link of a plugin to a cell of a collapsed group that is not the oldest
/// such link of its plugin is gone: no link with its id is left, where no
/// two links shared an id.
pub proof fn lemma_younger_link_goes(then: Seq<Cell>, links: Seq<PluginCell>, now: Timestamp, m: int)
    requires
        0 <= m < links.len(),
        forall|a: int, b: int|
            0 <= a < b < links.len() ==> (#[trigger] links[a]).id != (#[trigger] links[b]).id,
        in_groups(then, collapsed_keys(then), links[m].cell_id),
        !is_oldest_of_its_plugin(then, links, links[m]),
    ensures
        forall|k: int|
            0 <= k < links_repaired(then, links, now).len() ==> (#[trigger] links_repaired(
                then,
                links,
                now,
            )[k]).id != links[m].id,
{
    let groups = collapsed_keys(then);
    let keep = |l: PluginCell| !is_superseded(then, groups, links, l);
    assert(is_superseded(then, groups, links, links[m]));
    assert forall|k: int| 0 <= k < links_repaired(then, links, now).len() implies (
    #[trigger] links_repaired(then, links, now)[k]).id != links[m].id by {
        lemma_filter_member(links, keep, k);
        let j = choose|j: int| 0 <= j < links.len() && #[trigger] links[j] == links.filter(keep)[k];
        assert(links_repaired(then, links, now)[k].id == links[j].id);
        if links[j].id == links[m].id {
            assert(j == m);
        }
    }
}

/// The kept cell of a collapsed group is an interior cell of that group.
pub proof fn lemma_kept_is_in_its_group(then: Seq<Cell>, id: i32)
    requires
        cell_ids_unique(then),
        in_groups(then, collapsed_keys(then), id),
    ensures
        interior_key_of(then, kept_id_of(then, id)) == interior_key_of(then, id),
        in_groups(then, collapsed_keys(then), kept_id_of(then, id)),
{
    let key = interior_key_of(then, id)->0;
    let group = group_of(then, key.0, key.1);
    lemma_first_base_game(group);
    let n = if first_base_game(group) is Some {
        first_base_game(group)->0
    } else {
        0
    };
    assert(ids_of(group)[n] == kept_id_of(then, id));
    lemma_ids_are_keys(then, key, kept_id_of(then, id));
}

/// After the repair no plugin has two links to one cell, where no two
/// links shared an id and no plugin had two links to one cell before.
pub proof fn lemma_links_stay_unique(then: Seq<Cell>, links: Seq<PluginCell>, now: Timestamp)
    requires
        cell_ids_unique(then),
        forall|a: int, b: int|
            0 <= a < b < links.len() ==> (#[trigger] links[a]).id != (#[trigger] links[b]).id,
        forall|a: int, b: int|
            0 <= a < b < links.len() ==> (#[trigger] links[a]).key() != (#[trigger] links[b]).key(),
    ensures
        forall|a: int, b: int|
            0 <= a < b < links_repaired(then, links, now).len() ==> (#[trigger] links_repaired(
                then,
                links,
                now,
            )[a]).key() != (#[trigger] links_repaired(then, links, now)[b]).key(),
{
    let groups = collapsed_keys(then);
    let keep = |l: PluginCell| !is_superseded(then, groups, links, l);
    let left = links_repaired(then, links, now);
    lemma_filter_keeps_order(links, keep);
    let at = choose|at: Seq<int>|
        #![trigger at.len()]
        {
            &&& at.len() == links.filter(keep).len()
            &&& forall|k: int| 0 <= k < at.len() ==> 0 <= #[trigger] at[k] < links.len()
            &&& forall|k: int| 0 <= k < at.len() ==> links.filter(keep)[k] == links[#[trigger] at[k]]
            &&& forall|k: int, l: int| 0 <= k < l < at.len() ==> at[k] < at[l]
            &&& forall|j: int|
                0 <= j < links.len() && keep(#[trigger] links[j]) ==> exists|k: int|
                    0 <= k < at.len() && #[trigger] at[k] == j
        };
    assert forall|a: int, b: int| 0 <= a < b < left.len() implies (#[trigger] left[a]).key() != (
    #[trigger] left[b]).key() by {
        let la = links[at[a]];
        let lb = links[at[b]];
        assert(at[a] < at[b]);
        assert(links.filter(keep)[a] == la && links.filter(keep)[b] == lb);
        assert(keep(la) && keep(lb)) by {
            lemma_filter_member(links, keep, a);
            lemma_filter_member(links, keep, b);
        }
        assert(left[a] == repaired(then, groups, la, now));
        assert(left[b] == repaired(then, groups, lb, now));
        assert(la.id != lb.id);
        assert(la.key() != lb.key());
        if left[a].key() == left[b].key() {
            if in_groups(then, groups, la.cell_id) {
                lemma_kept_is_in_its_group(then, la.cell_id);
            }
            if in_groups(then, groups, lb.cell_id) {
                lemma_kept_is_in_its_group(then, lb.cell_id);
            }
            assert(in_groups(then, groups, la.cell_id) && in_groups(then, groups, lb.cell_id));
            assert(interior_key_of(then, la.cell_id) == interior_key_of(then, lb.cell_id));
            if la.id < lb.id {
                assert(is_superseded(then, groups, links, lb));
            } else {
                assert(is_superseded(then, groups, links, la));
            }
        }
    }
}

/// The interior cell at a place is the interior cell of its id.
pub proof fn lemma_interior_key(then: Seq<Cell>, i: int)
    requires
        cell_ids_unique(then),
        0 <= i < then.len(),
        then[i].world_id is None,
    ensures
        interior_key_of(then, then[i].id) == Some((then[i].form_id, then[i].master@)),
{
    let j = choose|j: int|
        0 <= j < then.len() && (#[trigger] then[j]).id == then[i].id && then[j].world_id is None;
    if j < i {
        assert(then[j].id != then[i].id);
    } else if i < j {
        assert(then[i].id != then[j].id);
    }
}

/// The ids of a group are the ids of the interior cells of its form id and
/// master.
pub proof fn lemma_ids_are_keys(then: Seq<Cell>, key: (i32, Seq<char>), id: i32)
    requires
        cell_ids_unique(then),
    ensures
        ids_of(group_of(then, key.0, key.1)).contains(id) <==> interior_key_of(then, id) == Some(
            key,
        ),
{
    if ids_of(group_of(then, key.0, key.1)).contains(id) {
        lemma_reported_is_member(then, key.0, key.1, id);
        let k = choose|k: int|
            0 <= k < then.len() && in_group(#[trigger] then[k], key.0, key.1) && then[k].id == id;
        lemma_interior_key(then, k);
    }
    if interior_key_of(then, id) == Some(key) {
        let i = choose|i: int|
            0 <= i < then.len() && (#[trigger] then[i]).id == id && then[i].world_id is None;
        assert(in_group(then[i], key.0, key.1));
        lemma_member_is_reported(then, key.0, key.1, i);
    }
}

/// The kept cell of one group is no cell of another.
pub proof fn lemma_kept_is_of_its_group(then: Seq<Cell>, key: (i32, Seq<char>), other: (
    i32,
    Seq<char>,
))
    requires
        cell_ids_unique(then),
        key != other,
        group_of(then, key.0, key.1).len() > 0,
    ensures
        !ids_of(group_of(then, other.0, other.1)).contains(
            chosen_of(group_of(then, key.0, key.1))->0.id,
        ),
{
    let group = group_of(then, key.0, key.1);
    lemma_first_base_game(group);
    let n = if first_base_game(group) is Some {
        first_base_game(group)->0
    } else {
        0
    };
    lemma_group_reports_members(then, key.0, key.1, n);
    let a = choose|a: int|
        0 <= a < then.len() && in_group(#[trigger] then[a], key.0, key.1) && cell_id_of(then[a])
            == group[n];
    let id = chosen_of(group)->0.id;
    assert(then[a].id == id);
    if ids_of(group_of(then, other.0, other.1)).contains(id) {
        lemma_reported_is_member(then, other.0, other.1, id);
        let b = choose|b: int|
            0 <= b < then.len() && in_group(#[trigger] then[b], other.0, other.1) && then[b].id
                == id;
        if a < b {
            assert(then[a].id != then[b].id);
        } else if b < a {
            assert(then[b].id != then[a].id);
        }
        assert(key.1 =~= other.1);
    }
}

/// What one round of the repair does to one link, after the rounds for
/// the groups done so far.
proof fn lemma_round_link(
    then: Seq<Cell>,
    done: Set<(i32, Seq<char>)>,
    key: (i32, Seq<char>),
    link: PluginCell,
    now: Timestamp,
)
    requires
        cell_ids_unique(then),
        !done.contains(key),
        group_of(then, key.0, key.1).len() > 0,
    ensures
        ({
            let ids = ids_of(group_of(then, key.0, key.1));
            let kept = chosen_of(group_of(then, key.0, key.1))->0.id;
            let so_far = repaired(then, done, link, now);
            &&& ids.contains(so_far.cell_id) <==> interior_key_of(then, link.cell_id) == Some(key)
            &&& repointed(so_far, ids, kept, now) == repaired(then, done.insert(key), link, now)
            &&& interior_key_of(then, link.cell_id) == Some(key) ==> so_far == link
        }),
{
    let ids = ids_of(group_of(then, key.0, key.1));
    if in_groups(then, done, link.cell_id) {
        let other = interior_key_of(then, link.cell_id)->0;
        let i = choose|i: int|
            0 <= i < then.len() && (#[trigger] then[i]).id == link.cell_id && then[i].world_id
                is None;
        assert(in_group(then[i], other.0, other.1));
        lemma_member_is_reported(then, other.0, other.1, i);
        lemma_kept_is_of_its_group(then, other, key);
    } else {
        lemma_ids_are_keys(then, key, link.cell_id);
    }
}

/// One round of the repair, after the rounds for the groups done so far,
/// leaves the links that the repair of those groups and of the group of
/// the round leaves.
pub proof fn lemma_round_links(
    then: Seq<Cell>,
    done: Set<(i32, Seq<char>)>,
    all: Seq<PluginCell>,
    key: (i32, Seq<char>),
    now: Timestamp,
)
    requires
        cell_ids_unique(then),
        !done.contains(key),
        group_of(then, key.0, key.1).len() > 0,
    ensures
        links_after(
            links_repaired_in(then, done, all, now),
            ids_of(group_of(then, key.0, key.1)),
            chosen_of(group_of(then, key.0, key.1))->0.id,
            now,
        ) == links_repaired_in(then, done.insert(key), all, now),
{
    let ids = ids_of(group_of(then, key.0, key.1));
    let kept = chosen_of(group_of(then, key.0, key.1))->0.id;
    let keep = |l: PluginCell| !is_superseded(then, done, all, l);
    let change = |l: PluginCell| repaired(then, done, l, now);
    let passed = all.filter(keep);
    let so_far = passed.map_values(change);
    let keep_next = |l: PluginCell| !is_shadowed(so_far, ids, l);
    let change_next = |l: PluginCell| repointed(l, ids, kept, now);
    let keep_both = |l: PluginCell| !is_superseded(then, done.insert(key), all, l);
    let change_both = |l: PluginCell| repaired(then, done.insert(key), l, now);
    assert forall|j: int| 0 <= j < all.len() implies (keep(#[trigger] all[j]) && keep_next(
        change(all[j]),
    )) == keep_both(all[j]) by {
        let x = all[j];
        lemma_round_link(then, done, key, x, now);
        if interior_key_of(then, x.cell_id) == Some(key) {
            if is_shadowed(so_far, ids, x) {
                let m = choose|m: int|
                    0 <= m < so_far.len() && (#[trigger] so_far[m]).plugin_id == x.plugin_id
                        && ids.contains(so_far[m].cell_id) && so_far[m].id < x.id;
                lemma_filter_member(all, keep, m);
                let n = choose|n: int| 0 <= n < all.len() && #[trigger] all[n] == passed[m];
                lemma_round_link(then, done, key, all[n], now);
                assert(so_far[m] == change(all[n]));
                assert(all[n].plugin_id == x.plugin_id && interior_key_of(then, all[n].cell_id)
                    == interior_key_of(then, x.cell_id) && all[n].id < x.id);
            }
            if is_superseded(then, done.insert(key), all, x) {
                let n = choose|n: int|
                    0 <= n < all.len() && (#[trigger] all[n]).plugin_id == x.plugin_id
                        && interior_key_of(then, all[n].cell_id) == interior_key_of(
                        then,
                        x.cell_id,
                    ) && all[n].id < x.id;
                lemma_round_link(then, done, key, all[n], now);
                assert(keep(all[n]));
                lemma_filter_keeps(all, keep, n);
                let m = choose|m: int| 0 <= m < passed.len() && #[trigger] passed[m] == all[n];
                assert(so_far[m] == change(all[n]));
                assert(so_far[m].plugin_id == x.plugin_id && ids.contains(so_far[m].cell_id)
                    && so_far[m].id < x.id);
            }
        }
    }
    assert forall|j: int| 0 <= j < all.len() && keep_both(#[trigger] all[j]) implies change_next(
        change(all[j]),
    ) == change_both(all[j]) by {
        lemma_round_link(then, done, key, all[j], now);
    }
    lemma_filter_map_twice(all, keep, change, keep_next, change_next, keep_both, change_both);
}

/// No two exterior cells share a key.
pub open spec fn exterior_keys_unique(cells: Seq<Cell>) -> bool {
    forall|i: int, j: int|
        0 <= i < j < cells.len() && (#[trigger] cells[i]).world_id is Some && (
        #[trigger] cells[j]).world_id is Some ==> cells[i].key() != cells[j].key()
}

/// After the repair no cell is stored twice: where no two exterior cells
/// shared a key before, no two cells of any kind share a key once every
/// cell that is left is a cell that was there, no two of them share an id,
/// and no interior cell is stored twice.
pub proof fn lemma_repaired_keys_unique(then: Seq<Cell>, now: Seq<Cell>)
    requires
        exterior_keys_unique(then),
        cell_ids_unique(now),
        rows_from(now, then),
        no_interior_duplicates(now),
    ensures
        crate::models::cell::keys_unique(now),
{
    assert forall|i: int, j: int| 0 <= i < j < now.len() implies (#[trigger] now[i]).key() != (
    #[trigger] now[j]).key() by {
        if now[i].key() == now[j].key() {
            if now[i].world_id is None {
                assert(same_interior_cell(now[i], now[j]));
            } else {
                assert(then.contains(now[i]));
                assert(then.contains(now[j]));
                let a = choose|a: int| 0 <= a < then.len() && then[a] == now[i];
                let b = choose|b: int| 0 <= b < then.len() && then[b] == now[j];
                assert(now[i].id != now[j].id);
                if a < b {
                    assert(then[a].key() != then[b].key());
                } else if b < a {
                    assert(then[b].key() != then[a].key());
                }
            }
        }
    }
}

/// Collapses every group of interior cells that share form id and master
/// into one cell, and reports how many groups it collapsed.
///
/// Of each group the kept cell is the first that is marked as a cell of
/// the base game, or the first of all where none is. Before the links of
/// the other cells are pointed at the kept cell, the links of one plugin
/// to cells of the group are cut down to the oldest of them, so that no
/// plugin ends up with two links to the kept cell.
///
/// Afterwards no interior cell is stored twice. A table in which none was
/// stored twice is left as it is, the links with it: a second run changes
/// nothing. Every cell that is left is a cell that was there, unchanged;
/// every exterior cell is left; of every interior cell the kept cell of
/// its group is left, and no other. The links are those of
/// `links_repaired`: of the links of one plugin to the cells of one
/// collapsed group the oldest is left and points at the kept cell, every
/// other link is as it was, and links that pointed at stored cells still
/// do. The number reported is the number of groups that held two cells or
/// more.
///
/// A table in which two cells share an id is refused and left as it is.
pub fn deduplicate_interior_cells(cells: &mut Vec<Cell>, links: &mut Vec<PluginCell>, now: Timestamp)
    -> (r: Result<usize, DedupError>)
    ensures
        match r {
            Err(e) => e == DedupError::DuplicateCellId && !cell_ids_unique(old(cells)@)
                && final(cells)@ == old(cells)@ && final(links)@ == old(links)@,
            Ok(groups) => {
                &&& cell_ids_unique(old(cells)@)
                &&& cell_ids_unique(final(cells)@)
                &&& no_interior_duplicates(final(cells)@)
                &&& no_interior_duplicates(old(cells)@) ==> groups == 0 && final(cells)@ == old(
                    cells,
                )@ && final(links)@ == old(links)@
                &&& groups == collapsed_keys(old(cells)@).len()
                &&& groups + final(cells)@.len() <= old(cells)@.len()
                &&& rows_from(final(cells)@, old(cells)@)
                &&& exterior_kept(final(cells)@, old(cells)@)
                &&& groups_kept(final(cells)@, old(cells)@)
                &&& only_kept_left(final(cells)@, old(cells)@)
                &&& final(links)@ == links_repaired(old(cells)@, old(links)@, now)
                &&& references_hold(old(links)@, old(cells)@) ==> references_hold(
                    final(links)@,
                    final(cells)@,
                )
            },
        },
{
    if !ids_are_unique(cells) {
        return Err(DedupError::DuplicateCellId);
    }
    let mut groups: usize = 0;
    let total: usize = cells.len();
    let ghost mut done: Set<(i32, Seq<char>)> = Set::empty();
    proof {
        assert forall|j: int| 0 <= j < cells@.len() && (#[trigger] cells@[j]).world_id
            is None implies group_left(cells@, cells@[j].form_id, cells@[j].master@) by {
            assert(in_group(cells@[j], cells@[j].form_id, cells@[j].master@));
        }
        lemma_filter_map_nothing(
            links@,
            |l: PluginCell| !is_superseded(cells@, done, links@, l),
            |l: PluginCell| repaired(cells@, done, l, now),
        );
    }
    loop
        invariant
            done.finite(),
            done.len() == groups,
            links@ == links_repaired_in(old(cells)@, done, old(links)@, now),
            forall|key: (i32, Seq<char>)| #[trigger] done.contains(key) ==> is_collapsed(old(cells)@, key),
            forall|key: (i32, Seq<char>)|
                !(#[trigger] done.contains(key)) ==> group_of(cells@, key.0, key.1) == group_of(
                    old(cells)@,
                    key.0,
                    key.1,
                ),
            forall|i: int|
                0 <= i < cells@.len() && (#[trigger] cells@[i]).world_id is None && done.contains(
                    (cells@[i].form_id, cells@[i].master@),
                ) ==> is_kept(old(cells)@, cells@[i]),
            cell_ids_unique(old(cells)@),
            cell_ids_unique(cells@),
            total == old(cells)@.len(),
            groups + cells@.len() <= old(cells)@.len(),
            groups == 0 ==> cells@ == old(cells)@ && links@ == old(links)@,
            groups > 0 ==> !no_interior_duplicates(old(cells)@),
            rows_from(cells@, old(cells)@),
            exterior_kept(cells@, old(cells)@),
            groups_kept(cells@, old(cells)@),
            kept_or_untouched(cells@, old(cells)@),
            references_hold(old(links)@, old(cells)@) ==> references_hold(links@, cells@),
        ensures
            done.finite(),
            done.len() == groups,
            links@ == links_repaired_in(old(cells)@, done, old(links)@, now),
            forall|key: (i32, Seq<char>)| #[trigger] done.contains(key) ==> is_collapsed(old(cells)@, key),
            forall|key: (i32, Seq<char>)|
                !(#[trigger] done.contains(key)) ==> group_of(cells@, key.0, key.1) == group_of(
                    old(cells)@,
                    key.0,
                    key.1,
                ),
            cell_ids_unique(cells@),
            kept_or_untouched(cells@, old(cells)@),
            groups + cells@.len() <= old(cells)@.len(),
            groups == 0 ==> cells@ == old(cells)@ && links@ == old(links)@,
            rows_from(cells@, old(cells)@),
            exterior_kept(cells@, old(cells)@),
            groups_kept(cells@, old(cells)@),
            references_hold(old(links)@, old(cells)@) ==> references_hold(links@, cells@),
            no_interior_duplicates(cells@),
            no_interior_duplicates(old(cells)@) ==> groups == 0,
        decreases cells@.len(),
    {
        let group = match find_duplicates(cells) {
            None => {
                break ;
            },
            Some(group) => group,
        };
        let ids = group_ids(&group.ids);
        let ghost before = cells@;
        let ghost links_before = links@;
        let ghost form_id = group.form_id;
        let ghost master = group.master@;
        let ghost first = choose|i: int|
            {
                &&& 0 <= i < before.len()
                &&& #[trigger] has_later_twin(before, i)
                &&& group.form_id == before[i].form_id
                &&& group.master == before[i].master
                &&& group.ids@ == group_of(before, group.form_id, group.master@)
            };
        let ghost twin = choose|j: int|
            first < j < before.len() && same_interior_cell(before[first], #[trigger] before[j]);
        proof {
            assert(in_group(before[first], form_id, master));
            assert(in_group(before[twin], form_id, master));
            lemma_member_is_reported(before, form_id, master, first);
            assert(group.ids@.len() > 0);
            lemma_first_base_game(group.ids@);
            if groups == 0 {
                assert(same_interior_cell(old(cells)@[first], old(cells)@[twin]));
            }
        }
        let kept = match choose_cell(&group.ids) {
            Some(kept) => kept,
            None => {
                break ;
            },
        };
        proof {
            let n = if first_base_game(group.ids@) is Some {
                first_base_game(group.ids@)->0
            } else {
                0
            };
            assert(ids@[n] == kept.id);
        }
        apply_group(cells, links, &ids, kept.id, now);
        proof {
            assert(ids@ == ids_of(group_of(before, form_id, master)));
            lemma_repair_removes(before, form_id, master, kept.id, first, twin);
            assert(cells@.len() < before.len());
            lemma_round_keeps_cells(old(cells)@, before, form_id, master, kept.id);
            lemma_round_keeps_chosen(old(cells)@, before, form_id, master, kept, first, twin);
            let key = (form_id, master);
            if done.contains(key) {
                assert(is_kept(old(cells)@, before[first]));
                assert(is_kept(old(cells)@, before[twin]));
                assert(before[first].id != before[twin].id);
            }
            assert(!done.contains(key));
            lemma_filter_two(before, |c: Cell| in_group(c, form_id, master));
            assert(group_of(old(cells)@, form_id, master).len() >= 2);
            lemma_round_links(old(cells)@, done, old(links)@, key, now);
            let after = cells@;
            let done_before = done;
            done = done.insert(key);
            assert forall|other: (i32, Seq<char>)| !(#[trigger] done.contains(
                other,
            )) implies group_of(after, other.0, other.1) == group_of(
                old(cells)@,
                other.0,
                other.1,
            ) by {
                assert(!done_before.contains(other));
                lemma_other_groups_untouched(before, form_id, master, kept.id, other.0, other.1);
            }
            assert forall|i: int|
                0 <= i < after.len() && (#[trigger] after[i]).world_id is None && done.contains(
                    (after[i].form_id, after[i].master@),
                ) implies is_kept(old(cells)@, after[i]) by {
                if !in_group(after[i], form_id, master) {
                    lemma_cell_left_was_there(before, form_id, master, kept.id, i);
                    let m = choose|m: int| 0 <= m < before.len() && before[m] == after[i];
                    assert(done_before.contains((before[m].form_id, before[m].master@)));
                }
            }
            if references_hold(old(links)@, old(cells)@) {
                lemma_repair_keeps_references(
                    before,
                    links_before,
                    form_id,
                    master,
                    kept.id,
                    now,
                );
            }
        }
        groups = groups + 1;
    }
    proof {
        lemma_all_kept_in_the_end(old(cells)@, cells@);
        assert forall|key: (i32, Seq<char>)| is_collapsed(old(cells)@, key) implies done.contains(
            key,
        ) by {
            if !done.contains(key) {
                lemma_filter_two(cells@, |c: Cell| in_group(c, key.0, key.1));
                let (a, b) = choose|a: int, b: int|
                    0 <= a < b < cells@.len() && in_group(#[trigger] cells@[a], key.0, key.1)
                        && in_group(#[trigger] cells@[b], key.0, key.1);
                assert(same_interior_cell(cells@[a], cells@[b]));
            }
        }
        assert(done =~= collapsed_keys(old(cells)@));
    }
    Ok(groups)
}

} // verus!

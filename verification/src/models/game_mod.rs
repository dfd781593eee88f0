//! Mods: the packages that the upstream catalogue lists.

use vstd::prelude::*;
use crate::commands::update::{is_current, last_processed};
use crate::lemmas::{lemma_filter_empty, lemma_filter_step};
use crate::models::id_set;
use crate::nexus_scraper::ScrapedMod;
use crate::nexus_api::game_mod::ExtractedModData;
use crate::time::Timestamp;

verus! {

/// A stored mod. No two stored mods share game and upstream mod id.
#[derive(Debug, Clone, PartialEq)]
pub struct Mod {
    pub id: i32,
    pub name: String,
    pub nexus_mod_id: i32,
    pub author_name: String,
    pub author_id: i32,
    pub category_name: Option<String>,
    pub category_id: Option<i32>,
    pub description: Option<String>,
    pub thumbnail_link: Option<String>,
    pub game_id: i32,
    pub is_translation: bool,
    pub updated_at: Timestamp,
    pub created_at: Timestamp,
    pub last_update_at: Timestamp,
    pub first_upload_at: Timestamp,
    /// When every file of the mod was last processed to the end.
    pub last_updated_files_at: Option<Timestamp>,
}

/// A mod to be written.
#[derive(Debug, Clone, PartialEq)]
pub struct UnsavedMod {
    pub name: String,
    pub nexus_mod_id: i32,
    pub author_name: String,
    pub author_id: i32,
    pub category_name: Option<String>,
    pub category_id: Option<i32>,
    pub description: Option<String>,
    pub thumbnail_link: Option<String>,
    pub game_id: i32,
    pub is_translation: bool,
    pub last_update_at: Timestamp,
    pub first_upload_at: Timestamp,
}

/// What the search index holds of a mod.
#[derive(Debug, Clone, PartialEq)]
pub struct ModForSearch {
    pub id: i32,
    pub name: String,
    pub game_id: i32,
    pub nexus_mod_id: i32,
}

/// The number of cells that a mod edits.
#[derive(Debug, Clone, Copy, PartialEq, Eq, Structural)]
pub struct ModCellCount {
    pub nexus_mod_id: i32,
    pub cells: Option<i64>,
}

/// The number of plugins of a mod.
#[derive(Debug, Clone, Copy, PartialEq, Eq, Structural)]
pub struct ModPluginCount {
    pub mod_id: i32,
    pub plugin_count: Option<i64>,
}

/// When the files of a mod were last processed to the end, for a mod of
/// which that is known.
#[derive(Debug, Clone, Copy, PartialEq, Eq, Structural)]
pub struct ModLastUpdatedFilesAt {
    pub nexus_mod_id: i32,
    pub last_updated_files_at: Timestamp,
}

/// The columns of a stored mod that the details of the API overwrite.
/// A description or thumbnail that is `None` leaves the stored one as it
/// is.
#[derive(Debug, Clone, PartialEq)]
pub struct ModUpdate {
    pub id: i32,
    pub nexus_mod_id: i32,
    pub name: String,
    pub category_id: Option<i32>,
    pub author_name: String,
    pub author_id: i32,
    pub last_update_at: Timestamp,
    pub first_upload_at: Timestamp,
    pub description: Option<String>,
    pub thumbnail_link: Option<String>,
}

impl Mod {
    /// What identifies a mod: its game and its upstream id.
    pub open spec fn key(self) -> (i32, i32) {
        (self.game_id, self.nexus_mod_id)
    }
}

/// What the details of the API change of a stored mod: the name and the
/// category stay where the details name none.
pub open spec fn mod_update_of(game_mod: Mod, mod_data: ExtractedModData) -> ModUpdate {
    ModUpdate {
        id: game_mod.id,
        nexus_mod_id: mod_data.nexus_mod_id,
        name: match mod_data.name {
            Some(name) => name,
            None => game_mod.name,
        },
        category_id: match mod_data.category_id {
            Some(id) => Some(id),
            None => game_mod.category_id,
        },
        author_name: mod_data.author_name,
        author_id: mod_data.author_id,
        last_update_at: mod_data.last_update_at,
        first_upload_at: mod_data.first_upload_at,
        description: mod_data.description,
        thumbnail_link: mod_data.thumbnail_link,
    }
}

/// Works out what to overwrite of a stored mod from the details that the
/// API reports of it.
pub fn update_from_api_response(game_mod: &Mod, mod_data: &ExtractedModData) -> (r: ModUpdate)
    ensures
        r == mod_update_of(*game_mod, *mod_data),
{
    ModUpdate {
        id: game_mod.id,
        nexus_mod_id: mod_data.nexus_mod_id,
        name: match &mod_data.name {
            Some(name) => name.clone(),
            None => game_mod.name.clone(),
        },
        category_id: match mod_data.category_id {
            Some(id) => Some(id),
            None => game_mod.category_id,
        },
        author_name: mod_data.author_name.clone(),
        author_id: mod_data.author_id,
        last_update_at: mod_data.last_update_at,
        first_upload_at: mod_data.first_upload_at,
        description: mod_data.description.clone(),
        thumbnail_link: mod_data.thumbnail_link.clone(),
    }
}

/// Whether a stored mod is one of those asked for, and has had its files
/// processed to the end.
pub open spec fn is_answer(game_mod: Mod, game_id: i32, nexus_mod_ids: Seq<i32>) -> bool {
    game_mod.game_id == game_id && nexus_mod_ids.contains(game_mod.nexus_mod_id)
        && game_mod.last_updated_files_at is Some
}

/// What is answered of a stored mod.
pub open spec fn answer_of(game_mod: Mod) -> ModLastUpdatedFilesAt {
    ModLastUpdatedFilesAt {
        nexus_mod_id: game_mod.nexus_mod_id,
        last_updated_files_at: game_mod.last_updated_files_at->0,
    }
}

/// When the files of the mods asked for were last processed to the end.
pub open spec fn last_updated_of(mods: Seq<Mod>, game_id: i32, nexus_mod_ids: Seq<i32>) -> Seq<
    ModLastUpdatedFilesAt,
> {
    mods.filter(|m: Mod| is_answer(m, game_id, nexus_mod_ids)).map_values(|m: Mod| answer_of(m))
}

/// For the mods of a game with the given upstream ids, when the files of
/// each were last processed to the end: what the store answers when it is
/// asked. A mod whose files never were is left out.
pub fn bulk_get_last_updated_by_nexus_mod_ids(mods: &Vec<Mod>, game_id: i32, nexus_mod_ids: &Vec<i32>)
    -> (r: Vec<ModLastUpdatedFilesAt>)
    ensures
        r@ == last_updated_of(mods@, game_id, nexus_mod_ids@),
{
    let asked = id_set(nexus_mod_ids);
    let ghost pred = |m: Mod| is_answer(m, game_id, nexus_mod_ids@);
    let ghost answer = |m: Mod| answer_of(m);
    let mut out: Vec<ModLastUpdatedFilesAt> = Vec::new();
    let mut i: usize = 0;
    proof {
        lemma_filter_empty(mods@.subrange(0, 0), pred);
    }
    while i < mods.len()
        invariant
            i <= mods.len(),
            asked@ == nexus_mod_ids@.to_set(),
            pred == (|m: Mod| is_answer(m, game_id, nexus_mod_ids@)),
            answer == (|m: Mod| answer_of(m)),
            out@ =~= mods@.subrange(0, i as int).filter(pred).map_values(answer),
        decreases mods.len() - i,
    {
        proof {
            lemma_filter_step(mods@, pred, i as int);
        }
        if mods[i].game_id == game_id && asked.contains(&mods[i].nexus_mod_id) {
            if let Some(at) = mods[i].last_updated_files_at {
                out.push(
                    ModLastUpdatedFilesAt {
                        nexus_mod_id: mods[i].nexus_mod_id,
                        last_updated_files_at: at,
                    },
                );
            }
        }
        i += 1;
    }
    assert(mods@.subrange(0, mods.len() as int) =~= mods@);
    out
}

/// Whether the stored mod is the listed one, in the given game.
pub open spec fn is_stored_as(game_mod: Mod, game_id: i32, scraped: ScrapedMod) -> bool {
    game_mod.game_id == game_id && game_mod.nexus_mod_id == scraped.nexus_mod_id
}

/// Whether the files of the stored mod were processed to the end after
/// the day of the last update of the listed one had begun.
pub open spec fn processed_since_update(game_mod: Mod, scraped: ScrapedMod) -> bool {
    game_mod.last_updated_files_at matches Some(at) && at.later_than(
        Timestamp { seconds: scraped.last_update_at.midnight_seconds() as i64, nanos: 0 },
    )
}

/// What the store answers decides as the store stands: the first answer
/// for a mod is the moment on the first of its rows that carry one.
proof fn lemma_first_answer(
    mods: Seq<Mod>,
    game_id: i32,
    nexus_mod_ids: Seq<i32>,
    scraped: ScrapedMod,
)
    requires
        nexus_mod_ids.contains(scraped.nexus_mod_id),
        forall|j: int|
            0 <= j < mods.len() && is_stored_as(#[trigger] mods[j], game_id, scraped)
                ==> processed_since_update(mods[j], scraped),
    ensures
        match last_processed(last_updated_of(mods, game_id, nexus_mod_ids), scraped.nexus_mod_id) {
            Some(at) => at.later_than(
                Timestamp { seconds: scraped.last_update_at.midnight_seconds() as i64, nanos: 0 },
            ),
            None => forall|j: int|
                0 <= j < mods.len() ==> !is_stored_as(#[trigger] mods[j], game_id, scraped),
        },
    decreases mods.len(),
{
    reveal(Seq::filter);
    let pred = |m: Mod| is_answer(m, game_id, nexus_mod_ids);
    let answers = last_updated_of(mods, game_id, nexus_mod_ids);
    if mods.len() > 0 {
        let front = mods.drop_last();
        assert forall|j: int|
            0 <= j < front.len() && is_stored_as(
                #[trigger] front[j],
                game_id,
                scraped,
            ) implies processed_since_update(front[j], scraped) by {
            assert(front[j] == mods[j]);
        }
        lemma_first_answer(front, game_id, nexus_mod_ids, scraped);
        let front_answers = last_updated_of(front, game_id, nexus_mod_ids);
        if pred(mods.last()) {
            assert(answers =~= front_answers.push(answer_of(mods.last())));
            lemma_last_processed_push(front_answers, answer_of(mods.last()), scraped.nexus_mod_id);
        } else {
            assert(answers =~= front_answers);
        }
        assert forall|j: int| 0 <= j < mods.len() && j < front.len() implies mods[j] == front[j] by {}
        if last_processed(answers, scraped.nexus_mod_id) is None {
            assert forall|j: int| 0 <= j < mods.len() implies !is_stored_as(
                #[trigger] mods[j],
                game_id,
                scraped,
            ) by {
                if j < front.len() {
                    assert(mods[j] == front[j]);
                } else {
                    assert(mods[j] == mods.last());
                }
            }
        }
    } else {
        assert(answers =~= Seq::<ModLastUpdatedFilesAt>::empty());
    }
}

/// The first entry for a mod in a list with one entry more at its end is
/// the first entry in the list without it, or else the entry at the end.
proof fn lemma_last_processed_push(
    entries: Seq<ModLastUpdatedFilesAt>,
    last: ModLastUpdatedFilesAt,
    nexus_mod_id: i32,
)
    ensures
        last_processed(entries.push(last), nexus_mod_id) == match last_processed(
            entries,
            nexus_mod_id,
        ) {
            Some(at) => Some(at),
            None => if last.nexus_mod_id == nexus_mod_id {
                Some(last.last_updated_files_at)
            } else {
                None
            },
        },
    decreases entries.len(),
{
    let longer = entries.push(last);
    if entries.len() == 0 {
        assert(longer.drop_first() =~= entries);
    } else {
        assert(longer[0] == entries[0]);
        assert(longer.drop_first() =~= entries.drop_first().push(last));
        lemma_last_processed_push(entries.drop_first(), last, nexus_mod_id);
    }
}

/// A mod that was processed to the end is passed over until it changes:
/// where the store holds the listed mod, and holds on every row of it
/// that its files were processed after the day of its last update had
/// begun, the store's answer makes the mod current.
pub proof fn lemma_processed_mod_is_current(
    mods: Seq<Mod>,
    game_id: i32,
    nexus_mod_ids: Seq<i32>,
    scraped: ScrapedMod,
    j: int,
)
    requires
        nexus_mod_ids.contains(scraped.nexus_mod_id),
        0 <= j < mods.len(),
        is_stored_as(mods[j], game_id, scraped),
        forall|k: int|
            0 <= k < mods.len() && is_stored_as(#[trigger] mods[k], game_id, scraped)
                ==> processed_since_update(mods[k], scraped),
    ensures
        is_current(scraped, last_updated_of(mods, game_id, nexus_mod_ids)),
{
    lemma_first_answer(mods, game_id, nexus_mod_ids, scraped);
}

} // verus!

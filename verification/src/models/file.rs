//! Files: the downloads that a mod offers.

use vstd::prelude::*;
use crate::commands::update::{
    is_due, lemma_outcome_and_marks, outcome_completes, run_spec, step_spec, FileAction,
    FileEvent, FileFlags, FileStage, FileState,
};
use crate::lemmas::{lemma_filter_empty, lemma_filter_keeps, lemma_filter_step};
use crate::nexus_api::files::ApiFile;
use crate::nexus_api::game_mod::low_32;
use crate::time::Timestamp;

verus! {

/// A stored file. No two stored files share mod and upstream file id.
#[derive(Debug, Clone, PartialEq)]
pub struct File {
    pub id: i32,
    pub name: String,
    pub file_name: String,
    pub nexus_file_id: i32,
    pub mod_id: i32,
    pub category: Option<String>,
    pub version: Option<String>,
    pub mod_version: Option<String>,
    pub size: i64,
    pub uploaded_at: Timestamp,
    /// Whether the API offers a link to download the file. Assumed until
    /// the API has said otherwise.
    pub has_download_link: bool,
    pub updated_at: Timestamp,
    pub created_at: Timestamp,
    /// When the file was downloaded, once it has been.
    pub downloaded_at: Option<Timestamp>,
    /// Whether the file may hold a plugin. Assumed until its content
    /// preview has said otherwise.
    pub has_plugin: bool,
    /// Whether extracting the plugins of the file was given up.
    pub unable_to_extract_plugins: bool,
}

/// A file to be written.
#[derive(Debug, Clone, PartialEq)]
pub struct UnsavedFile {
    pub name: String,
    pub file_name: String,
    pub nexus_file_id: i32,
    pub mod_id: i32,
    pub category: Option<String>,
    pub version: Option<String>,
    pub mod_version: Option<String>,
    pub size: i64,
    pub uploaded_at: Timestamp,
}

impl File {
    /// What identifies a file: its mod and its upstream id.
    pub open spec fn key(self) -> (i32, i32) {
        (self.mod_id, self.nexus_file_id)
    }

    /// Whether nothing is left to do for the file: it has been
    /// downloaded, or it is known to hold no plugin, or to have no
    /// download link.
    pub open spec fn processed(self) -> bool {
        self.downloaded_at is Some || !self.has_plugin || !self.has_download_link
    }

    /// Whether nothing is left to do for the file.
    pub fn is_processed(&self) -> (r: bool)
        ensures
            r == self.processed(),
    {
        self.downloaded_at.is_some() || !self.has_plugin || !self.has_download_link
    }
}

/// The row to write for a file of the API that belongs to the given mod.
pub open spec fn unsaved_file_of(api_file: ApiFile, mod_id: i32) -> UnsavedFile {
    UnsavedFile {
        name: api_file.name,
        file_name: api_file.file_name,
        nexus_file_id: low_32(api_file.file_id),
        mod_id,
        category: api_file.category,
        version: api_file.version,
        mod_version: api_file.mod_version,
        size: api_file.size,
        uploaded_at: api_file.uploaded_at,
    }
}

impl UnsavedFile {
    /// The row to write for a file of the API. The upstream id is kept in
    /// 32 bits.
    pub fn from_api_file(api_file: &ApiFile, mod_id: i32) -> (r: UnsavedFile)
        ensures
            r == unsaved_file_of(*api_file, mod_id),
    {
        UnsavedFile {
            name: api_file.name.clone(),
            file_name: api_file.file_name.clone(),
            nexus_file_id: crate::nexus_api::game_mod::truncate_32(api_file.file_id),
            mod_id,
            category: api_file.category.clone(),
            version: api_file.version.clone(),
            mod_version: api_file.mod_version.clone(),
            size: api_file.size,
            uploaded_at: api_file.uploaded_at,
        }
    }
}

impl File {
    /// The marks of the row.
    pub open spec fn flags(self) -> FileFlags {
        FileFlags {
            has_plugin: self.has_plugin,
            has_download_link: self.has_download_link,
            downloaded: self.downloaded_at is Some,
            unable_to_extract_plugins: self.unable_to_extract_plugins,
        }
    }

    /// The row after the caller has done what it was told: the marks that
    /// the action names are set, the download is recorded at `now`, and
    /// any other action leaves the row as it is.
    pub open spec fn after(self, action: FileAction, now: Timestamp) -> File {
        match action {
            FileAction::MarkNoPlugin => File { has_plugin: false, ..self },
            FileAction::MarkNoDownloadLink => File { has_download_link: false, ..self },
            FileAction::MarkDownloadedAndPace => File { downloaded_at: Some(now), ..self },
            FileAction::MarkUnableToExtract => File {
                downloaded_at: Some(now),
                unable_to_extract_plugins: true,
                ..self
            },
            _ => self,
        }
    }

    /// Records on the row what an action asks to be recorded.
    pub fn apply(&mut self, action: FileAction, now: Timestamp)
        ensures
            *final(self) == old(self).after(action, now),
    {
        match action {
            FileAction::MarkNoPlugin => {
                self.has_plugin = false;
            },
            FileAction::MarkNoDownloadLink => {
                self.has_download_link = false;
            },
            FileAction::MarkDownloadedAndPace => {
                self.downloaded_at = Some(now);
            },
            FileAction::MarkUnableToExtract => {
                self.downloaded_at = Some(now);
                self.unable_to_extract_plugins = true;
            },
            _ => {},
        }
    }
}

/// Whether a file belongs to the mod and counts as processed.
pub open spec fn is_processed_of(file: File, mod_id: i32) -> bool {
    file.mod_id == mod_id && file.processed()
}

/// The upstream ids of the files of a mod that count as processed, in the
/// order of the rows.
pub open spec fn processed_ids_of(files: Seq<File>, mod_id: i32) -> Seq<i32> {
    files.filter(|f: File| is_processed_of(f, mod_id)).map_values(|f: File| f.nexus_file_id)
}

/// The upstream ids of the files of a mod that need not be taken up
/// again: what the store answers when it is asked for them.
pub fn get_processed_nexus_file_ids_by_mod_id(files: &Vec<File>, mod_id: i32) -> (r: Vec<i32>)
    ensures
        r@ == processed_ids_of(files@, mod_id),
{
    let ghost pred = |f: File| is_processed_of(f, mod_id);
    let ghost id_of = |f: File| f.nexus_file_id;
    let mut ids: Vec<i32> = Vec::new();
    let mut i: usize = 0;
    proof {
        lemma_filter_empty(files@.subrange(0, 0), pred);
    }
    while i < files.len()
        invariant
            i <= files.len(),
            pred == (|f: File| is_processed_of(f, mod_id)),
            id_of == (|f: File| f.nexus_file_id),
            ids@ =~= files@.subrange(0, i as int).filter(pred).map_values(id_of),
        decreases files.len() - i,
    {
        proof {
            lemma_filter_step(files@, pred, i as int);
        }
        if files[i].mod_id == mod_id && files[i].is_processed() {
            ids.push(files[i].nexus_file_id);
        }
        i += 1;
    }
    assert(files@.subrange(0, files.len() as int) =~= files@);
    ids
}

/// The row of a file carries the marks that its state names: where it does
/// before a step, it does again once the caller has recorded what the
/// step asked for. So the store and the steps never disagree on whether a
/// file counts as processed.
pub proof fn lemma_row_follows_state(file: File, state: FileState, event: FileEvent, now: Timestamp)
    requires
        file.flags() == state.flags,
    ensures
        file.after(step_spec(state, event).1, now).flags() == step_spec(state, event).0.flags,
        file.after(step_spec(state, event).1, now).processed() == step_spec(
            state,
            event,
        ).0.flags.processed(),
{
}

/// A file that the store holds as processed is not taken up again: where
/// a row of the mod counts as processed, the file of the API with its
/// upstream id is not due, whatever else the API says of it.
pub proof fn lemma_processed_row_is_not_due(
    files: Seq<File>,
    j: int,
    mod_id: i32,
    api_file: ApiFile,
)
    requires
        0 <= j < files.len(),
        files[j].mod_id == mod_id,
        files[j].processed(),
        files[j].nexus_file_id == low_32(api_file.file_id),
    ensures
        !is_due(api_file, processed_ids_of(files, mod_id).to_set()),
{
    let pred = |f: File| is_processed_of(f, mod_id);
    lemma_filter_keeps(files, pred, j);
    let k = choose|k: int| 0 <= k < files.filter(pred).len() && #[trigger] files.filter(pred)[k]
        == files[j];
    assert(processed_ids_of(files, mod_id)[k] == files[j].nexus_file_id);
}

/// A file that was dealt with for good is not taken up by the next crawl:
/// where the steps of a file ended for good, in whatever way, and its row
/// carries the marks of that end, the store reports the file as processed,
/// and the file is not due.
pub proof fn lemma_finished_file_is_not_due(
    events: Seq<FileEvent>,
    files: Seq<File>,
    j: int,
    api_file: ApiFile,
)
    requires
        0 <= j < files.len(),
        files[j].flags() == run_spec(FileState::initial(), events).flags,
        run_spec(FileState::initial(), events).stage matches FileStage::Finished(outcome)
            && outcome_completes(outcome),
        files[j].nexus_file_id == low_32(api_file.file_id),
    ensures
        !is_due(api_file, processed_ids_of(files, files[j].mod_id).to_set()),
{
    lemma_outcome_and_marks(events);
    lemma_processed_row_is_not_due(files, j, files[j].mod_id, api_file);
}

} // verus!

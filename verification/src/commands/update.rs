//! The crawl: which pages of the listing are fetched, which mods and files
//! are taken up again, and what is done with a file step by step.
//!
//! The caller talks to the catalogue, the store and the disk. After each
//! thing it has done it reports what came of it, and is told what to do
//! next.

use vstd::prelude::*;
use std::collections::HashSet;
use crate::extractors::{
    after_failure, after_failure_spec, primary_strategy, primary_strategy_spec, sniff,
    sniffed_kind, unreadable_archive, unreadable_archive_spec, AfterFailure, ArchiveKind,
    ExtractionFailure, Strategy, UnreadableArchive,
};
use crate::lemmas::{lemma_filter_empty, lemma_filter_step};
use crate::models::game_mod::{
    is_stored_as, last_updated_of, lemma_processed_mod_is_current, processed_since_update, Mod,
    ModLastUpdatedFilesAt, UnsavedMod,
};
use crate::models::id_set;
use crate::nexus_api::files::ApiFile;
use crate::nexus_api::game_mod::{low_32, truncate_32};
use crate::nexus_scraper::{page_offset, page_offset_spec, ScrapedMod};
use crate::text::str_eq;
use crate::time::Timestamp;

verus! {

/// The number of pages in a row without anything new after which a crawl
/// that is not a full one stops.
pub const IDLE_PAGE_LIMIT: u64 = 50;

/// Where a crawl of the listing stands.
#[derive(Debug, Clone, Copy, PartialEq, Eq, Structural)]
pub struct CrawlState {
    /// The page to fetch next.
    pub page: usize,
    /// Whether the listing goes on after the page fetched last.
    pub has_next_page: bool,
    /// The pages fetched in a row that brought nothing new.
    pub pages_with_no_updates: u64,
}

impl CrawlState {
    /// The state before the first page.
    pub fn start(start_page: usize) -> (r: CrawlState)
        ensures
            r == (CrawlState { page: start_page, has_next_page: true, pages_with_no_updates: 0 }),
    {
        CrawlState { page: start_page, has_next_page: true, pages_with_no_updates: 0 }
    }

    /// The position in the listing at which the page to fetch starts. A
    /// crawl counts its pages from one, and takes page zero for the first.
    pub open spec fn offset_spec(self) -> Option<usize> {
        if self.page == 0 {
            page_offset_spec(0)
        } else {
            page_offset_spec((self.page - 1) as usize)
        }
    }

    /// The position in the listing at which the page to fetch starts, or
    /// `None` where it is beyond what the machine can count.
    pub fn offset(&self) -> (r: Option<usize>)
        ensures
            r == self.offset_spec(),
    {
        if self.page == 0 {
            page_offset(0)
        } else {
            page_offset(self.page - 1)
        }
    }

    /// Whether another page is fetched: the listing goes on, and the crawl
    /// is a full one or has not yet seen too many idle pages in a row.
    pub open spec fn continues(self, full: bool) -> bool {
        self.has_next_page && (full || self.pages_with_no_updates < IDLE_PAGE_LIMIT)
    }

    /// The state after a page that wrote `upserted` mods and reported
    /// whether the listing goes on. A page that wrote none counts as idle;
    /// any other page ends the run of idle pages.
    pub open spec fn after_page_spec(self, has_next_page: bool, upserted: usize) -> CrawlState {
        CrawlState {
            page: if self.page < usize::MAX {
                (self.page + 1) as usize
            } else {
                self.page
            },
            has_next_page: has_next_page && self.page < usize::MAX,
            pages_with_no_updates: if upserted > 0 {
                0
            } else if self.pages_with_no_updates < u64::MAX {
                (self.pages_with_no_updates + 1) as u64
            } else {
                self.pages_with_no_updates
            },
        }
    }

    /// Whether to fetch another page.
    pub fn should_fetch_page(&self, full: bool) -> (r: bool)
        ensures
            r == self.continues(full),
    {
        self.has_next_page && (full || self.pages_with_no_updates < IDLE_PAGE_LIMIT)
    }

    /// Moves on past a page.
    pub fn after_page(&self, has_next_page: bool, upserted: usize) -> (r: CrawlState)
        ensures
            r == self.after_page_spec(has_next_page, upserted),
    {
        CrawlState {
            page: if self.page < usize::MAX {
                self.page + 1
            } else {
                self.page
            },
            has_next_page: has_next_page && self.page < usize::MAX,
            pages_with_no_updates: if upserted > 0 {
                0
            } else if self.pages_with_no_updates < u64::MAX {
                self.pages_with_no_updates + 1
            } else {
                self.pages_with_no_updates
            },
        }
    }
}

/// When the files of the mod with the given upstream id were last
/// processed to the end, by the first entry that speaks of the mod.
pub open spec fn last_processed(processed: Seq<ModLastUpdatedFilesAt>, nexus_mod_id: i32) -> Option<
    Timestamp,
>
    decreases processed.len(),
{
    if processed.len() == 0 {
        None
    } else if processed[0].nexus_mod_id == nexus_mod_id {
        Some(processed[0].last_updated_files_at)
    } else {
        last_processed(processed.drop_first(), nexus_mod_id)
    }
}

/// Whether nothing has changed upstream since the files of a listed mod
/// were last processed to the end: they were processed strictly after the
/// start of the day of the last update.
pub open spec fn is_current(scraped: ScrapedMod, processed: Seq<ModLastUpdatedFilesAt>) -> bool {
    match last_processed(processed, scraped.nexus_mod_id) {
        Some(at) => at.later_than(
            Timestamp { seconds: scraped.last_update_at.midnight_seconds() as i64, nanos: 0 },
        ),
        None => false,
    }
}

/// The row to write for a listed mod.
pub open spec fn unsaved_mod_of(scraped: ScrapedMod, game_id: i32, is_translation: bool)
    -> UnsavedMod {
    UnsavedMod {
        name: scraped.name,
        nexus_mod_id: scraped.nexus_mod_id,
        author_name: scraped.author_name,
        author_id: scraped.author_id,
        category_name: scraped.category_name,
        category_id: scraped.category_id,
        description: scraped.desc,
        thumbnail_link: scraped.thumbnail_link,
        game_id,
        is_translation,
        last_update_at: Timestamp {
            seconds: scraped.last_update_at.midnight_seconds() as i64,
            nanos: 0,
        },
        first_upload_at: Timestamp {
            seconds: scraped.first_upload_at.midnight_seconds() as i64,
            nanos: 0,
        },
    }
}

/// The rows to write for a page of the listing: one for each mod that is
/// not current, in the order of the page.
pub open spec fn mods_to_write(
    scraped: Seq<ScrapedMod>,
    processed: Seq<ModLastUpdatedFilesAt>,
    game_id: i32,
    is_translation: bool,
) -> Seq<UnsavedMod> {
    scraped.filter(|m: ScrapedMod| !is_current(m, processed)).map_values(
        |m: ScrapedMod| unsaved_mod_of(m, game_id, is_translation),
    )
}

/// Whether a file of the API is taken up: it has a category other than
/// `ARCHIVED`, and its id is not among those already processed.
pub open spec fn is_due(file: ApiFile, processed_ids: Set<i32>) -> bool {
    file.category is Some && file.category->0@ != "ARCHIVED"@ && !processed_ids.contains(
        low_32(file.file_id),
    )
}

/// The files of a mod that are taken up, in the order of the API.
pub open spec fn files_due(files: Seq<ApiFile>, processed_ids: Set<i32>) -> Seq<ApiFile> {
    files.filter(|f: ApiFile| is_due(f, processed_ids))
}

/// Looks up when the files of a mod were last processed to the end.
pub fn find_last_processed(processed: &Vec<ModLastUpdatedFilesAt>, nexus_mod_id: i32) -> (r: Option<
    Timestamp,
>)
    ensures
        r == last_processed(processed@, nexus_mod_id),
{
    let mut i: usize = 0;
    assert(processed@.subrange(0, processed.len() as int) =~= processed@);
    while i < processed.len()
        invariant
            i <= processed.len(),
            last_processed(processed@, nexus_mod_id) == last_processed(
                processed@.subrange(i as int, processed.len() as int),
                nexus_mod_id,
            ),
        decreases processed.len() - i,
    {
        let ghost rest = processed@.subrange(i as int, processed.len() as int);
        assert(rest[0] == processed@[i as int]);
        assert(rest.drop_first() =~= processed@.subrange(i + 1, processed.len() as int));
        if processed[i].nexus_mod_id == nexus_mod_id {
            return Some(processed[i].last_updated_files_at);
        }
        i += 1;
    }
    None
}

/// Whether a listed mod can be passed over: its files were processed to
/// the end after its last update.
pub fn mod_is_current(scraped: &ScrapedMod, processed: &Vec<ModLastUpdatedFilesAt>) -> (r: bool)
    ensures
        r == is_current(*scraped, processed@),
{
    match find_last_processed(processed, scraped.nexus_mod_id) {
        Some(at) => at.is_after(&scraped.last_update_at.at_midnight()),
        None => false,
    }
}

/// The row to write for a listed mod: what the listing says of it, with
/// its two days turned into the instants at which they begin.
pub fn unsaved_mod(scraped: &ScrapedMod, game_id: i32, is_translation: bool) -> (r: UnsavedMod)
    ensures
        r == unsaved_mod_of(*scraped, game_id, is_translation),
{
    UnsavedMod {
        name: scraped.name.clone(),
        nexus_mod_id: scraped.nexus_mod_id,
        author_name: scraped.author_name.clone(),
        author_id: scraped.author_id,
        category_name: scraped.category_name.clone(),
        category_id: scraped.category_id,
        description: scraped.desc.clone(),
        thumbnail_link: scraped.thumbnail_link.clone(),
        game_id,
        is_translation,
        last_update_at: scraped.last_update_at.at_midnight(),
        first_upload_at: scraped.first_upload_at.at_midnight(),
    }
}

/// Picks from a page of the listing the mods to write and to take up
/// again: every mod of which it is not known that its files were processed
/// after its last update.
pub fn mods_to_create_or_update(
    scraped: &Vec<ScrapedMod>,
    processed: &Vec<ModLastUpdatedFilesAt>,
    game_id: i32,
    is_translation: bool,
) -> (r: Vec<UnsavedMod>)
    ensures
        r@ == mods_to_write(scraped@, processed@, game_id, is_translation),
{
    let ghost pred = |m: ScrapedMod| !is_current(m, processed@);
    let ghost row = |m: ScrapedMod| unsaved_mod_of(m, game_id, is_translation);
    let mut out: Vec<UnsavedMod> = Vec::new();
    let mut i: usize = 0;
    proof {
        lemma_filter_empty(scraped@.subrange(0, 0), pred);
    }
    while i < scraped.len()
        invariant
            i <= scraped.len(),
            pred == (|m: ScrapedMod| !is_current(m, processed@)),
            row == (|m: ScrapedMod| unsaved_mod_of(m, game_id, is_translation)),
            out@ =~= scraped@.subrange(0, i as int).filter(pred).map_values(row),
        decreases scraped.len() - i,
    {
        proof {
            lemma_filter_step(scraped@, pred, i as int);
        }
        if !mod_is_current(&scraped[i], processed) {
            out.push(unsaved_mod(&scraped[i], game_id, is_translation));
        }
        i += 1;
    }
    assert(scraped@.subrange(0, scraped.len() as int) =~= scraped@);
    out
}

/// A copy of a file of the API.
fn copy_of(file: &ApiFile) -> (r: ApiFile)
    ensures
        r == *file,
{
    ApiFile {
        file_id: file.file_id,
        name: file.name.clone(),
        file_name: file.file_name.clone(),
        category: file.category.clone(),
        version: file.version.clone(),
        mod_version: file.mod_version.clone(),
        size: file.size,
        content_preview_link: file.content_preview_link.clone(),
        uploaded_at: file.uploaded_at,
    }
}

/// Whether a file of the API is taken up.
pub fn file_is_due(file: &ApiFile, processed_ids: &HashSet<i32>) -> (r: bool)
    ensures
        r == is_due(*file, processed_ids@),
{
    match &file.category {
        None => false,
        Some(category) => {
            let id: i32 = truncate_32(file.file_id);
            !str_eq(category.as_str(), "ARCHIVED") && !processed_ids.contains(&id)
        },
    }
}

/// Picks the files of a mod to take up: a file without a category has been
/// replaced or deleted and is left out, and so is an archived one, and one
/// that the store knows as processed.
pub fn files_to_process(files: &Vec<ApiFile>, processed_ids: &Vec<i32>) -> (r: Vec<ApiFile>)
    ensures
        r@ == files_due(files@, processed_ids@.to_set()),
{
    let processed = id_set(processed_ids);
    let ghost pred = |f: ApiFile| is_due(f, processed@);
    let mut out: Vec<ApiFile> = Vec::new();
    let mut i: usize = 0;
    proof {
        lemma_filter_empty(files@.subrange(0, 0), pred);
    }
    while i < files.len()
        invariant
            i <= files.len(),
            processed@ == processed_ids@.to_set(),
            pred == (|f: ApiFile| is_due(f, processed@)),
            out@ =~= files@.subrange(0, i as int).filter(pred),
        decreases files.len() - i,
    {
        proof {
            lemma_filter_step(files@, pred, i as int);
        }
        if file_is_due(&files[i], &processed) {
            out.push(copy_of(&files[i]));
        }
        i += 1;
    }
    assert(files@.subrange(0, files.len() as int) =~= files@);
    out
}

/// A page on which every mod is current gives nothing to write, and so
/// counts as idle: a crawl over a catalogue that has not changed since it
/// was last processed writes no mod.
pub proof fn lemma_current_page_is_idle(
    scraped: Seq<ScrapedMod>,
    processed: Seq<ModLastUpdatedFilesAt>,
    game_id: i32,
    is_translation: bool,
)
    requires
        forall|i: int| 0 <= i < scraped.len() ==> is_current(#[trigger] scraped[i], processed),
    ensures
        mods_to_write(scraped, processed, game_id, is_translation).len() == 0,
    decreases scraped.len(),
{
    reveal(Seq::filter);
    let pred = |m: ScrapedMod| !is_current(m, processed);
    if scraped.len() > 0 {
        assert forall|i: int| 0 <= i < scraped.drop_last().len() implies is_current(
            #[trigger] scraped.drop_last()[i],
            processed,
        ) by {
            assert(scraped.drop_last()[i] == scraped[i]);
        }
        lemma_current_page_is_idle(scraped.drop_last(), processed, game_id, is_translation);
        assert(is_current(scraped[scraped.len() - 1], processed));
        assert(scraped.filter(pred) == scraped.drop_last().filter(pred));
    }
}

/// The upstream ids of the mods of a page, in their order.
pub open spec fn listed_ids(scraped: Seq<ScrapedMod>) -> Seq<i32> {
    scraped.map_values(|m: ScrapedMod| m.nexus_mod_id)
}

/// Whether the store holds a listed mod as processed to the end since the
/// day of its last update began: it holds a row of the mod, and every row
/// of the mod says so.
pub open spec fn is_done_with(mods: Seq<Mod>, game_id: i32, scraped: ScrapedMod) -> bool {
    &&& exists|j: int| 0 <= j < mods.len() && is_stored_as(#[trigger] mods[j], game_id, scraped)
    &&& forall|k: int|
        0 <= k < mods.len() && is_stored_as(#[trigger] mods[k], game_id, scraped)
            ==> processed_since_update(mods[k], scraped)
}

/// A crawl over a listing that has not changed since its mods were
/// processed to the end writes nothing: where the store is done with every
/// mod of a page, what the store answers for the page leaves no mod to
/// write, so that no file of the page is asked for, none is downloaded and
/// no plugin is recorded.
pub proof fn lemma_processed_page_is_idle(
    mods: Seq<Mod>,
    scraped: Seq<ScrapedMod>,
    game_id: i32,
    is_translation: bool,
)
    requires
        forall|i: int| 0 <= i < scraped.len() ==> is_done_with(mods, game_id, #[trigger] scraped[i]),
    ensures
        mods_to_write(
            scraped,
            last_updated_of(mods, game_id, listed_ids(scraped)),
            game_id,
            is_translation,
        ).len() == 0,
{
    let ids = listed_ids(scraped);
    let processed = last_updated_of(mods, game_id, ids);
    assert forall|i: int| 0 <= i < scraped.len() implies is_current(
        #[trigger] scraped[i],
        processed,
    ) by {
        assert(is_done_with(mods, game_id, scraped[i]));
        assert(ids[i] == scraped[i].nexus_mod_id);
        let j = choose|j: int|
            0 <= j < mods.len() && is_stored_as(#[trigger] mods[j], game_id, scraped[i]);
        lemma_processed_mod_is_current(mods, game_id, ids, scraped[i], j);
    }
    lemma_current_page_is_idle(scraped, processed, game_id, is_translation);
}

/// A file that the store knows as processed is never taken up again.
pub proof fn lemma_processed_file_is_not_due(file: ApiFile, processed_ids: Set<i32>)
    requires
        processed_ids.contains(low_32(file.file_id)),
    ensures
        !is_due(file, processed_ids),
{
}

/// The marks on the row of a file that taking the file up may change.
#[derive(Debug, Clone, Copy, PartialEq, Eq, Structural)]
pub struct FileFlags {
    pub has_plugin: bool,
    pub has_download_link: bool,
    /// Whether the moment of the download has been recorded.
    pub downloaded: bool,
    pub unable_to_extract_plugins: bool,
}

/// How taking a file up ended.
#[derive(Debug, Clone, Copy, PartialEq, Eq, Structural)]
pub enum FileOutcome {
    /// The archive was extracted and its plugins were handed on.
    Processed,
    /// The content preview reports no plugin: the file was not downloaded.
    NoPlugin,
    /// The API has no download link for the file.
    NoDownloadLink,
    /// The link or the download could not be had: the file is passed over
    /// this time and nothing is recorded of it.
    Skipped,
    /// Extracting the plugins was given up, and that is recorded.
    UnableToExtract,
    /// The archive failed in a way that must be looked into.
    Fatal,
}

/// Where taking a file up stands.
#[derive(Debug, Clone, Copy, PartialEq, Eq, Structural)]
pub enum FileStage {
    /// Nothing has been done yet.
    Start,
    /// The content preview has been asked for.
    AwaitingMetadata,
    /// The download link has been asked for.
    AwaitingLink { checked_metadata: bool },
    /// The download is under way.
    AwaitingDownload { checked_metadata: bool },
    /// The first bytes of the download are being read.
    AwaitingInitialBytes { checked_metadata: bool },
    /// The archive is being extracted.
    Extracting { checked_metadata: bool, kind: ArchiveKind, strategy: Strategy },
    /// The file is done with.
    Finished(FileOutcome),
}

/// The stage of a file together with the marks on its row.
#[derive(Debug, Clone, Copy, PartialEq, Eq, Structural)]
pub struct FileState {
    pub stage: FileStage,
    pub flags: FileFlags,
}

/// What came of asking for the content preview.
#[derive(Debug, Clone, Copy, PartialEq, Eq, Structural)]
pub enum MetadataOutcome {
    /// The preview says whether the archive holds a plugin.
    Reports(bool),
    /// The preview could not be had or not be read.
    Failed,
}

/// What came of asking for the download link.
#[derive(Debug, Clone, Copy, PartialEq, Eq, Structural)]
pub enum LinkOutcome {
    Found,
    /// The API answered that there is none.
    NotFound,
    /// Every attempt failed.
    Failed,
}

/// What came of an attempt at extraction.
#[derive(Debug, Clone, Copy, PartialEq, Eq, Structural)]
pub enum ExtractionOutcome {
    /// Every plugin of the archive was extracted and handed on; there may
    /// have been none.
    Done,
    /// The archive could not be read at all.
    Unreadable,
    /// The archive was listed, but could not be unpacked.
    Unpackable,
    /// The attempt failed otherwise.
    Failed(ExtractionFailure),
}

/// What the caller reports.
#[derive(Debug, Clone, Copy, PartialEq)]
pub enum FileEvent {
    /// The row of the file has been written; the API names a content
    /// preview for the file, or does not.
    Upserted { has_preview: bool },
    Metadata(MetadataOutcome),
    Link(LinkOutcome),
    Download { succeeded: bool },
    /// The first eight bytes of the download, or `None` where they could
    /// not be read.
    InitialBytes(Option<[u8; 8]>),
    Extraction(ExtractionOutcome),
}

/// What the caller is to do next.
#[derive(Debug, Clone, Copy, PartialEq, Eq, Structural)]
pub enum FileAction {
    /// Ask for the content preview.
    FetchMetadata,
    /// Ask for the download link.
    RequestLink,
    /// Record that the file holds no plugin. The file is done with.
    MarkNoPlugin,
    /// Record that the file has no download link. The file is done with.
    MarkNoDownloadLink,
    /// Download the file.
    Download,
    /// Read the first eight bytes of what was downloaded.
    ReadStart,
    /// Record the moment of the download and that the plugins cannot be
    /// extracted. The file is done with.
    MarkUnableToExtract,
    /// Extract the archive in this way.
    Extract(Strategy),
    /// Record the moment of the download, then wait as the response with
    /// the download link asked. The file is done with.
    MarkDownloadedAndPace,
    /// Go on with the next file.
    Skip,
    /// End the run with an error.
    Abort,
    /// The report does not fit the stage: nothing is to be done for it.
    Nothing,
}

impl FileFlags {
    /// The marks of a file that has not been taken up.
    pub open spec fn initial() -> FileFlags {
        FileFlags {
            has_plugin: true,
            has_download_link: true,
            downloaded: false,
            unable_to_extract_plugins: false,
        }
    }

    /// Whether a file with these marks counts as processed and is not
    /// taken up again.
    pub open spec fn processed(self) -> bool {
        self.downloaded || !self.has_plugin || !self.has_download_link
    }
}

impl FileState {
    /// The state of a file whose row has just been written.
    pub open spec fn initial() -> FileState {
        FileState { stage: FileStage::Start, flags: FileFlags::initial() }
    }

    /// The state of a file whose row has just been written.
    pub fn new() -> (r: FileState)
        ensures
            r == FileState::initial(),
    {
        FileState {
            stage: FileStage::Start,
            flags: FileFlags {
                has_plugin: true,
                has_download_link: true,
                downloaded: false,
                unable_to_extract_plugins: false,
            },
        }
    }

    /// How far the file has come, as a number that every step raises.
    pub open spec fn rank(self) -> nat {
        match self.stage {
            FileStage::Start => 0,
            FileStage::AwaitingMetadata => 1,
            FileStage::AwaitingLink { .. } => 2,
            FileStage::AwaitingDownload { .. } => 3,
            FileStage::AwaitingInitialBytes { .. } => 4,
            FileStage::Extracting { strategy, .. } => if strategy == Strategy::External7z {
                6
            } else {
                5
            },
            FileStage::Finished(_) => 7,
        }
    }

    /// Whether stage and marks fit together. Every state that the steps
    /// reach from the initial one does.
    pub open spec fn consistent(self) -> bool {
        let f = self.flags;
        match self.stage {
            FileStage::Start => f == FileFlags::initial(),
            FileStage::AwaitingMetadata => f == FileFlags::initial(),
            FileStage::AwaitingLink { .. } => f == FileFlags::initial(),
            FileStage::AwaitingDownload { .. } => f == FileFlags::initial(),
            FileStage::AwaitingInitialBytes { .. } => f == FileFlags::initial(),
            FileStage::Extracting { kind, strategy, .. } => f == FileFlags::initial() && (
            primary_strategy_spec(kind) == Some(strategy) || (strategy == Strategy::External7z
                && primary_strategy_spec(kind) is Some)),
            FileStage::Finished(FileOutcome::Processed) => f == (FileFlags {
                downloaded: true,
                ..FileFlags::initial()
            }),
            FileStage::Finished(FileOutcome::NoPlugin) => f == (FileFlags {
                has_plugin: false,
                ..FileFlags::initial()
            }),
            FileStage::Finished(FileOutcome::NoDownloadLink) => f == (FileFlags {
                has_download_link: false,
                ..FileFlags::initial()
            }),
            FileStage::Finished(FileOutcome::Skipped) => f == FileFlags::initial(),
            FileStage::Finished(FileOutcome::UnableToExtract) => f == (FileFlags {
                downloaded: true,
                unable_to_extract_plugins: true,
                ..FileFlags::initial()
            }),
            FileStage::Finished(FileOutcome::Fatal) => f == FileFlags::initial(),
        }
    }
}

/// The end of a file whose plugins cannot be extracted: the download is
/// recorded together with the mark.
pub open spec fn give_up_extraction(flags: FileFlags) -> (FileState, FileAction) {
    (
        FileState {
            stage: FileStage::Finished(FileOutcome::UnableToExtract),
            flags: FileFlags { downloaded: true, unable_to_extract_plugins: true, ..flags },
        },
        FileAction::MarkUnableToExtract,
    )
}

/// What follows once the kind of a download is known, or known to be
/// unknown: a download of unknown kind and an installer are given up; any
/// other is extracted by the strategy that comes first for its kind.
pub open spec fn on_kind_spec(checked_metadata: bool, flags: FileFlags, kind: Option<ArchiveKind>)
    -> (FileState, FileAction) {
    match kind {
        None => give_up_extraction(flags),
        Some(k) => match primary_strategy_spec(k) {
            None => give_up_extraction(flags),
            Some(strategy) => (
                FileState {
                    stage: FileStage::Extracting { checked_metadata, kind: k, strategy },
                    flags,
                },
                FileAction::Extract(strategy),
            ),
        },
    }
}

/// What follows an attempt at extraction.
///
/// An archive that cannot be read is given up where no content preview
/// had promised a plugin, and ends the run where one had. An archive that
/// cannot be unpacked is given up. Any other failure leads to the next
/// strategy where there is one, and ends the run where there is none.
pub open spec fn on_extraction_spec(
    checked_metadata: bool,
    kind: ArchiveKind,
    strategy: Strategy,
    flags: FileFlags,
    outcome: ExtractionOutcome,
) -> (FileState, FileAction) {
    let fatal = (
        FileState { stage: FileStage::Finished(FileOutcome::Fatal), flags },
        FileAction::Abort,
    );
    match outcome {
        ExtractionOutcome::Done => (
            FileState {
                stage: FileStage::Finished(FileOutcome::Processed),
                flags: FileFlags { downloaded: true, ..flags },
            },
            FileAction::MarkDownloadedAndPace,
        ),
        ExtractionOutcome::Unreadable => match unreadable_archive_spec(checked_metadata) {
            UnreadableArchive::MarkUnableToExtract => give_up_extraction(flags),
            UnreadableArchive::Fatal => fatal,
        },
        ExtractionOutcome::Unpackable => give_up_extraction(flags),
        ExtractionOutcome::Failed(failure) => match after_failure_spec(kind, strategy, failure) {
            AfterFailure::FallBack(next) => (
                FileState {
                    stage: FileStage::Extracting { checked_metadata, kind, strategy: next },
                    flags,
                },
                FileAction::Extract(next),
            ),
            AfterFailure::Fatal => fatal,
        },
    }
}

/// The kind that the first bytes of a download show, where they could be
/// read.
pub open spec fn kind_of_start(bytes: Option<[u8; 8]>) -> Option<ArchiveKind> {
    match bytes {
        Some(b) => sniffed_kind(b@),
        None => None,
    }
}

/// The state that follows a report, and what the caller is to do next.
///
/// A file goes through these steps: the content preview is asked for,
/// where the API names one; a preview that reports no plugin ends the
/// file. The download link is asked for; a missing link ends the file, a
/// failure passes it over. The file is downloaded; a failure passes it
/// over. The first bytes of the download are read, and the archive is
/// extracted as its kind demands. The download is recorded only at the
/// end: when the archive has been extracted to the end, or together with
/// the mark that its plugins cannot be extracted. A file that ends the
/// run has no download recorded, and is taken up again. A report that
/// does not fit the stage changes nothing.
pub open spec fn step_spec(state: FileState, event: FileEvent) -> (FileState, FileAction) {
    let flags = state.flags;
    let skipped = (
        FileState { stage: FileStage::Finished(FileOutcome::Skipped), flags },
        FileAction::Skip,
    );
    match (state.stage, event) {
        (FileStage::Start, FileEvent::Upserted { has_preview }) => if has_preview {
            (FileState { stage: FileStage::AwaitingMetadata, flags }, FileAction::FetchMetadata)
        } else {
            (
                FileState { stage: FileStage::AwaitingLink { checked_metadata: false }, flags },
                FileAction::RequestLink,
            )
        },
        (FileStage::AwaitingMetadata, FileEvent::Metadata(MetadataOutcome::Reports(false))) => (
            FileState {
                stage: FileStage::Finished(FileOutcome::NoPlugin),
                flags: FileFlags { has_plugin: false, ..flags },
            },
            FileAction::MarkNoPlugin,
        ),
        (FileStage::AwaitingMetadata, FileEvent::Metadata(MetadataOutcome::Reports(true))) => (
            FileState { stage: FileStage::AwaitingLink { checked_metadata: true }, flags },
            FileAction::RequestLink,
        ),
        (FileStage::AwaitingMetadata, FileEvent::Metadata(MetadataOutcome::Failed)) => (
            FileState { stage: FileStage::AwaitingLink { checked_metadata: false }, flags },
            FileAction::RequestLink,
        ),
        (FileStage::AwaitingLink { checked_metadata }, FileEvent::Link(LinkOutcome::Found)) => (
            FileState { stage: FileStage::AwaitingDownload { checked_metadata }, flags },
            FileAction::Download,
        ),
        (FileStage::AwaitingLink { .. }, FileEvent::Link(LinkOutcome::NotFound)) => (
            FileState {
                stage: FileStage::Finished(FileOutcome::NoDownloadLink),
                flags: FileFlags { has_download_link: false, ..flags },
            },
            FileAction::MarkNoDownloadLink,
        ),
        (FileStage::AwaitingLink { .. }, FileEvent::Link(LinkOutcome::Failed)) => skipped,
        (
            FileStage::AwaitingDownload { checked_metadata },
            FileEvent::Download { succeeded },
        ) => if succeeded {
            (
                FileState { stage: FileStage::AwaitingInitialBytes { checked_metadata }, flags },
                FileAction::ReadStart,
            )
        } else {
            skipped
        },
        (
            FileStage::AwaitingInitialBytes { checked_metadata },
            FileEvent::InitialBytes(bytes),
        ) => on_kind_spec(checked_metadata, flags, kind_of_start(bytes)),
        (
            FileStage::Extracting { checked_metadata, kind, strategy },
            FileEvent::Extraction(outcome),
        ) => on_extraction_spec(checked_metadata, kind, strategy, flags, outcome),
        _ => (state, FileAction::Nothing),
    }
}

/// The state that a file is in after a sequence of reports.
pub open spec fn run_spec(state: FileState, events: Seq<FileEvent>) -> FileState
    decreases events.len(),
{
    if events.len() == 0 {
        state
    } else {
        run_spec(step_spec(state, events[0]).0, events.drop_first())
    }
}

/// Whether a file that ended in this way has been dealt with for good.
/// A file that was passed over or that ended the run has not: it is taken
/// up again by the next crawl.
pub open spec fn outcome_completes(outcome: FileOutcome) -> bool {
    outcome != FileOutcome::Skipped && outcome != FileOutcome::Fatal
}

/// Whether every file of a mod has been dealt with for good, so that the
/// mod can be recorded as processed to the end.
pub open spec fn all_complete(outcomes: Seq<FileOutcome>) -> bool {
    forall|i: int| 0 <= i < outcomes.len() ==> outcome_completes(#[trigger] outcomes[i])
}

/// The end of a file whose plugins cannot be extracted.
fn give_up(flags: FileFlags) -> (r: (FileState, FileAction))
    ensures
        r == give_up_extraction(flags),
{
    (
        FileState {
            stage: FileStage::Finished(FileOutcome::UnableToExtract),
            flags: FileFlags {
                has_plugin: flags.has_plugin,
                has_download_link: flags.has_download_link,
                downloaded: true,
                unable_to_extract_plugins: true,
            },
        },
        FileAction::MarkUnableToExtract,
    )
}

/// Decides what follows once the kind of a download is known, or known to
/// be unknown.
pub fn on_kind(checked_metadata: bool, flags: FileFlags, kind: Option<ArchiveKind>) -> (r: (
    FileState,
    FileAction,
))
    ensures
        r == on_kind_spec(checked_metadata, flags, kind),
{
    match kind {
        None => give_up(flags),
        Some(k) => match primary_strategy(k) {
            None => give_up(flags),
            Some(strategy) => (
                FileState {
                    stage: FileStage::Extracting { checked_metadata, kind: k, strategy },
                    flags,
                },
                FileAction::Extract(strategy),
            ),
        },
    }
}

/// Decides what follows an attempt at extraction.
pub fn on_extraction(
    checked_metadata: bool,
    kind: ArchiveKind,
    strategy: Strategy,
    flags: FileFlags,
    outcome: ExtractionOutcome,
) -> (r: (FileState, FileAction))
    ensures
        r == on_extraction_spec(checked_metadata, kind, strategy, flags, outcome),
{
    match outcome {
        ExtractionOutcome::Done => (
            FileState {
                stage: FileStage::Finished(FileOutcome::Processed),
                flags: FileFlags {
                    has_plugin: flags.has_plugin,
                    has_download_link: flags.has_download_link,
                    downloaded: true,
                    unable_to_extract_plugins: flags.unable_to_extract_plugins,
                },
            },
            FileAction::MarkDownloadedAndPace,
        ),
        ExtractionOutcome::Unreadable => match unreadable_archive(checked_metadata) {
            UnreadableArchive::MarkUnableToExtract => give_up(flags),
            UnreadableArchive::Fatal => (
                FileState { stage: FileStage::Finished(FileOutcome::Fatal), flags },
                FileAction::Abort,
            ),
        },
        ExtractionOutcome::Unpackable => give_up(flags),
        ExtractionOutcome::Failed(failure) => match after_failure(kind, strategy, failure) {
            AfterFailure::FallBack(next) => (
                FileState {
                    stage: FileStage::Extracting { checked_metadata, kind, strategy: next },
                    flags,
                },
                FileAction::Extract(next),
            ),
            AfterFailure::Fatal => (
                FileState { stage: FileStage::Finished(FileOutcome::Fatal), flags },
                FileAction::Abort,
            ),
        },
    }
}

/// Takes a report and answers with the state that follows and with what
/// the caller is to do next.
pub fn step(state: FileState, event: FileEvent) -> (r: (FileState, FileAction))
    ensures
        r == step_spec(state, event),
{
    let flags = state.flags;
    match (state.stage, event) {
        (FileStage::Start, FileEvent::Upserted { has_preview }) => if has_preview {
            (FileState { stage: FileStage::AwaitingMetadata, flags }, FileAction::FetchMetadata)
        } else {
            (
                FileState { stage: FileStage::AwaitingLink { checked_metadata: false }, flags },
                FileAction::RequestLink,
            )
        },
        (FileStage::AwaitingMetadata, FileEvent::Metadata(outcome)) => match outcome {
            MetadataOutcome::Reports(false) => (
                FileState {
                    stage: FileStage::Finished(FileOutcome::NoPlugin),
                    flags: FileFlags {
                        has_plugin: false,
                        has_download_link: flags.has_download_link,
                        downloaded: flags.downloaded,
                        unable_to_extract_plugins: flags.unable_to_extract_plugins,
                    },
                },
                FileAction::MarkNoPlugin,
            ),
            MetadataOutcome::Reports(true) => (
                FileState { stage: FileStage::AwaitingLink { checked_metadata: true }, flags },
                FileAction::RequestLink,
            ),
            MetadataOutcome::Failed => (
                FileState { stage: FileStage::AwaitingLink { checked_metadata: false }, flags },
                FileAction::RequestLink,
            ),
        },
        (FileStage::AwaitingLink { checked_metadata }, FileEvent::Link(outcome)) => match outcome {
            LinkOutcome::Found => (
                FileState { stage: FileStage::AwaitingDownload { checked_metadata }, flags },
                FileAction::Download,
            ),
            LinkOutcome::NotFound => (
                FileState {
                    stage: FileStage::Finished(FileOutcome::NoDownloadLink),
                    flags: FileFlags {
                        has_plugin: flags.has_plugin,
                        has_download_link: false,
                        downloaded: flags.downloaded,
                        unable_to_extract_plugins: flags.unable_to_extract_plugins,
                    },
                },
                FileAction::MarkNoDownloadLink,
            ),
            LinkOutcome::Failed => (
                FileState { stage: FileStage::Finished(FileOutcome::Skipped), flags },
                FileAction::Skip,
            ),
        },
        (
            FileStage::AwaitingDownload { checked_metadata },
            FileEvent::Download { succeeded },
        ) => if succeeded {
            (
                FileState { stage: FileStage::AwaitingInitialBytes { checked_metadata }, flags },
                FileAction::ReadStart,
            )
        } else {
            (
                FileState { stage: FileStage::Finished(FileOutcome::Skipped), flags },
                FileAction::Skip,
            )
        },
        (
            FileStage::AwaitingInitialBytes { checked_metadata },
            FileEvent::InitialBytes(bytes),
        ) => {
            let kind = match bytes {
                Some(b) => sniff(&b),
                None => None,
            };
            on_kind(checked_metadata, flags, kind)
        },
        (
            FileStage::Extracting { checked_metadata, kind, strategy },
            FileEvent::Extraction(outcome),
        ) => on_extraction(checked_metadata, kind, strategy, flags, outcome),
        _ => (state, FileAction::Nothing),
    }
}

/// Whether every file of a mod has been dealt with for good.
pub fn mod_is_complete(outcomes: &Vec<FileOutcome>) -> (r: bool)
    ensures
        r == all_complete(outcomes@),
{
    let mut i: usize = 0;
    while i < outcomes.len()
        invariant
            i <= outcomes.len(),
            forall|k: int| 0 <= k < i ==> outcome_completes(#[trigger] outcomes@[k]),
        decreases outcomes.len() - i,
    {
        match outcomes[i] {
            FileOutcome::Skipped => {
                return false;
            },
            FileOutcome::Fatal => {
                return false;
            },
            _ => {},
        }
        i += 1;
    }
    true
}

/// A step keeps stage and marks fitting together, and either changes
/// nothing or moves the file forward.
pub proof fn lemma_step_keeps_consistent(state: FileState, event: FileEvent)
    requires
        state.consistent(),
    ensures
        step_spec(state, event).0.consistent(),
        step_spec(state, event).1 == FileAction::Nothing ==> step_spec(state, event).0 == state,
        step_spec(state, event).1 != FileAction::Nothing ==> step_spec(state, event).0.rank()
            > state.rank(),
{
}

/// Whatever is reported in whatever order, stage and marks fit together
/// in every state that a file reaches.
pub proof fn lemma_run_is_consistent(events: Seq<FileEvent>)
    ensures
        run_spec(FileState::initial(), events).consistent(),
{
    lemma_run_from_consistent(FileState::initial(), events);
}

/// A run from a state in which stage and marks fit together ends in such
/// a state.
pub proof fn lemma_run_from_consistent(state: FileState, events: Seq<FileEvent>)
    requires
        state.consistent(),
    ensures
        run_spec(state, events).consistent(),
        run_spec(state, events).rank() >= state.rank(),
    decreases events.len(),
{
    if events.len() > 0 {
        lemma_step_keeps_consistent(state, events[0]);
        lemma_run_from_consistent(step_spec(state, events[0]).0, events.drop_first());
    }
}

/// What the end of a file says of its row.
///
/// A file that has ended counts as processed, and is not taken up again,
/// exactly where it ended for good; one that was passed over or that ended
/// the run does not, and is. A file that the preview or the missing link
/// ended has no download recorded. A file is marked as one whose plugins
/// cannot be extracted only together with its download.
pub proof fn lemma_outcome_and_marks(events: Seq<FileEvent>)
    ensures
        ({
            let end = run_spec(FileState::initial(), events);
            &&& end.stage matches FileStage::Finished(outcome) ==> (outcome_completes(outcome)
                <==> end.flags.processed())
            &&& !(end.stage is Finished) ==> !end.flags.processed()
            &&& end.stage == FileStage::Finished(FileOutcome::NoPlugin)
                ==> !end.flags.downloaded && !end.flags.has_plugin
            &&& end.stage == FileStage::Finished(FileOutcome::NoDownloadLink)
                ==> !end.flags.downloaded && !end.flags.has_download_link
            &&& end.flags.unable_to_extract_plugins ==> end.flags.downloaded
        }),
{
    lemma_run_is_consistent(events);
}

/// What a recorded download says of a file.
///
/// Whatever is reported in whatever order, a file whose download is
/// recorded has ended, and in one of two ways: its archive was extracted
/// to the end, so that each of its plugins was handed on, or the file is
/// marked as one whose plugins cannot be extracted. While a file is read
/// or extracted, and where it ends the run, no download is recorded.
pub proof fn lemma_recorded_download(events: Seq<FileEvent>)
    ensures
        ({
            let end = run_spec(FileState::initial(), events);
            &&& end.flags.downloaded ==> {
                ||| end.stage == FileStage::Finished(FileOutcome::Processed)
                ||| end.stage == FileStage::Finished(FileOutcome::UnableToExtract)
                    && end.flags.unable_to_extract_plugins
            }
            &&& end.stage == FileStage::Finished(FileOutcome::Processed) ==> end.flags.downloaded
                && !end.flags.unable_to_extract_plugins
            &&& end.stage == FileStage::Finished(FileOutcome::UnableToExtract)
                ==> end.flags.downloaded && end.flags.unable_to_extract_plugins
            &&& end.stage == FileStage::Finished(FileOutcome::Fatal) ==> end.flags
                == FileFlags::initial()
        }),
{
    lemma_run_is_consistent(events);
}

/// The download is recorded by the step that ends the file, and by no
/// other: by the one that follows the end of the extraction, and by the
/// one that gives the extraction up.
pub proof fn lemma_download_is_recorded_at_the_end(state: FileState, event: FileEvent)
    requires
        state.consistent(),
    ensures
        ({
            let next = step_spec(state, event);
            &&& next.0.flags.downloaded && !state.flags.downloaded ==> next.1
                == FileAction::MarkDownloadedAndPace || next.1 == FileAction::MarkUnableToExtract
            &&& next.1 == FileAction::MarkDownloadedAndPace ==> next.0.stage == FileStage::Finished(
                FileOutcome::Processed,
            ) && event == FileEvent::Extraction(ExtractionOutcome::Done)
            &&& next.1 == FileAction::MarkUnableToExtract ==> next.0.stage == FileStage::Finished(
                FileOutcome::UnableToExtract,
            )
        }),
{
}

/// A file ends the run only from extraction: on an archive that cannot be
/// read though the content preview had promised a plugin, or on a failure
/// after which no strategy is left. Nothing is recorded of such a file.
pub proof fn lemma_fatal_comes_from_extraction(state: FileState, event: FileEvent)
    requires
        state.consistent(),
        step_spec(state, event).1 == FileAction::Abort,
    ensures
        state.stage is Extracting,
        event is Extraction,
        step_spec(state, event).0.stage == FileStage::Finished(FileOutcome::Fatal),
        step_spec(state, event).0.flags == FileFlags::initial(),
{
}

} // verus!

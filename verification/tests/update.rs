use modmapper::commands::update::{
    file_is_due, files_to_process, find_last_processed, mod_is_complete, mod_is_current,
    mods_to_create_or_update, on_extraction, on_kind, step, unsaved_mod, CrawlState,
    ExtractionOutcome, FileAction, FileEvent, FileFlags, FileOutcome, FileStage, FileState,
    LinkOutcome, MetadataOutcome, IDLE_PAGE_LIMIT,
};
use modmapper::extractors::{ArchiveKind, ExtractionFailure, Strategy};
use modmapper::models::file::File;
use modmapper::models::game_mod::{ModLastUpdatedFilesAt, UnsavedMod};
use modmapper::nexus_api::files::ApiFile;
use modmapper::nexus_scraper::ScrapedMod;
use modmapper::time::{Date, Timestamp};
use std::collections::HashSet;

const ZIP: [u8; 8] = [0x50, 0x4B, 0x03, 0x04, 0x14, 0, 0, 0];
const RAR: [u8; 8] = [0x52, 0x61, 0x72, 0x21, 0x1A, 0x07, 0x00, 0xCF];
const EXE: [u8; 8] = [0x4D, 0x5A, 0x90, 0, 3, 0, 0, 0];
const GZ: [u8; 8] = [0x1F, 0x8B, 0x08, 0, 0, 0, 0, 0];

// 2024-01-01 is day 19723 since the epoch
const DAY: i32 = 719_163 + 19_723;
const MIDNIGHT: i64 = 19_723 * 86_400;

fn initial_flags() -> FileFlags {
    FileFlags {
        has_plugin: true,
        has_download_link: true,
        downloaded: false,
        unable_to_extract_plugins: false,
    }
}

fn downloaded_flags() -> FileFlags {
    FileFlags { downloaded: true, ..initial_flags() }
}

fn run(events: &[FileEvent]) -> (FileState, Vec<FileAction>) {
    let mut state = FileState::new();
    let mut actions = Vec::new();
    for event in events {
        let (next, action) = step(state, *event);
        state = next;
        actions.push(action);
    }
    (state, actions)
}

fn file_row() -> File {
    let t = Timestamp { seconds: 0, nanos: 0 };
    File {
        id: 1,
        name: "Main".to_string(),
        file_name: "main.zip".to_string(),
        nexus_file_id: 10,
        mod_id: 1,
        category: Some("MAIN".to_string()),
        version: None,
        mod_version: None,
        size: 1,
        uploaded_at: t,
        has_download_link: true,
        updated_at: t,
        created_at: t,
        downloaded_at: None,
        has_plugin: true,
        unable_to_extract_plugins: false,
    }
}

fn run_on_row(events: &[FileEvent]) -> (FileState, File) {
    let now = Timestamp { seconds: 99, nanos: 0 };
    let mut row = file_row();
    let (state, actions) = run(events);
    for action in actions {
        row.apply(action, now);
    }
    (state, row)
}

fn scraped(nexus_mod_id: i32, last_update_day: i32) -> ScrapedMod {
    ScrapedMod {
        nexus_mod_id,
        name: format!("Mod {}", nexus_mod_id),
        category_name: Some("Cat".to_string()),
        category_id: Some(3),
        author_name: "author".to_string(),
        author_id: 9,
        desc: None,
        thumbnail_link: None,
        last_update_at: Date { days_from_ce: last_update_day },
        first_upload_at: Date { days_from_ce: DAY - 100 },
    }
}

fn processed(nexus_mod_id: i32, seconds: i64, nanos: u32) -> ModLastUpdatedFilesAt {
    ModLastUpdatedFilesAt { nexus_mod_id, last_updated_files_at: Timestamp { seconds, nanos } }
}

fn api_file(file_id: i64, category: Option<&str>) -> ApiFile {
    ApiFile {
        file_id,
        name: format!("File {}", file_id),
        file_name: format!("file-{}.zip", file_id),
        category: category.map(String::from),
        version: None,
        mod_version: None,
        size: 10,
        content_preview_link: None,
        uploaded_at: Timestamp { seconds: 0, nanos: 0 },
    }
}

#[test]
fn crawl_goes_on_while_the_listing_goes_on() {
    let state = CrawlState::start(1);
    assert_eq!(state, CrawlState { page: 1, has_next_page: true, pages_with_no_updates: 0 });
    assert!(state.should_fetch_page(false));
    let state = state.after_page(true, 20);
    assert_eq!(state, CrawlState { page: 2, has_next_page: true, pages_with_no_updates: 0 });
    let state = state.after_page(false, 3);
    assert_eq!(state, CrawlState { page: 3, has_next_page: false, pages_with_no_updates: 0 });
    assert!(!state.should_fetch_page(false));
    assert!(!state.should_fetch_page(true));
}

#[test]
fn crawl_stops_after_fifty_idle_pages_unless_it_is_a_full_one() {
    assert_eq!(IDLE_PAGE_LIMIT, 50);
    let mut state = CrawlState::start(7);
    for _ in 0..49 {
        state = state.after_page(true, 0);
    }
    assert_eq!(state.pages_with_no_updates, 49);
    assert!(state.should_fetch_page(false));
    state = state.after_page(true, 0);
    assert_eq!(state.pages_with_no_updates, 50);
    assert_eq!(state.page, 57);
    assert!(!state.should_fetch_page(false));
    assert!(state.should_fetch_page(true));
}

#[test]
fn a_page_with_updates_ends_the_run_of_idle_pages() {
    let state = CrawlState { page: 5, has_next_page: true, pages_with_no_updates: 49 };
    assert_eq!(state.after_page(true, 1).pages_with_no_updates, 0);
    assert_eq!(state.after_page(true, 0).pages_with_no_updates, 50);
}

#[test]
fn crawl_counters_do_not_wrap() {
    let state = CrawlState { page: usize::MAX, has_next_page: true, pages_with_no_updates: u64::MAX };
    let next = state.after_page(true, 0);
    assert_eq!(next, CrawlState { page: usize::MAX, has_next_page: false, pages_with_no_updates: u64::MAX });
}

#[test]
fn a_mod_is_current_when_processed_after_the_day_of_its_last_update() {
    let m = scraped(5, DAY);
    assert!(mod_is_current(&m, &vec![processed(5, MIDNIGHT + 1, 0)]));
    assert!(mod_is_current(&m, &vec![processed(5, MIDNIGHT, 1)]));
    assert!(!mod_is_current(&m, &vec![processed(5, MIDNIGHT, 0)]));
    assert!(!mod_is_current(&m, &vec![processed(5, MIDNIGHT - 1, 999_999_999)]));
    assert!(!mod_is_current(&m, &vec![processed(6, MIDNIGHT + 1, 0)]));
    assert!(!mod_is_current(&m, &vec![]));
}

#[test]
fn the_first_entry_of_a_mod_decides() {
    let m = scraped(5, DAY);
    let entries = vec![processed(4, i64::MAX, 0), processed(5, 0, 0), processed(5, i64::MAX, 0)];
    assert_eq!(find_last_processed(&entries, 5), Some(Timestamp { seconds: 0, nanos: 0 }));
    assert!(!mod_is_current(&m, &entries));
    assert_eq!(find_last_processed(&entries, 6), None);
}

#[test]
fn unsaved_mod_starts_its_days_at_midnight() {
    let m = scraped(5, DAY);
    assert_eq!(
        unsaved_mod(&m, 2, true),
        UnsavedMod {
            name: "Mod 5".to_string(),
            nexus_mod_id: 5,
            author_name: "author".to_string(),
            author_id: 9,
            category_name: Some("Cat".to_string()),
            category_id: Some(3),
            description: None,
            thumbnail_link: None,
            game_id: 2,
            is_translation: true,
            last_update_at: Timestamp { seconds: MIDNIGHT, nanos: 0 },
            first_upload_at: Timestamp { seconds: MIDNIGHT - 100 * 86_400, nanos: 0 },
        }
    );
}

#[test]
fn unsaved_mod_handles_the_ends_of_the_calendar() {
    let m = scraped(1, i32::MAX);
    assert_eq!(unsaved_mod(&m, 1, false).last_update_at.seconds, (i32::MAX as i64 - 719_163) * 86_400);
    let m = scraped(1, i32::MIN);
    assert_eq!(unsaved_mod(&m, 1, false).last_update_at.seconds, (i32::MIN as i64 - 719_163) * 86_400);
}

#[test]
fn mods_to_write_are_those_not_current_in_page_order() {
    let page = vec![scraped(1, DAY), scraped(2, DAY), scraped(3, DAY), scraped(4, DAY + 1)];
    let known = vec![
        processed(2, MIDNIGHT + 3600, 0),
        processed(3, MIDNIGHT - 3600, 0),
        processed(4, MIDNIGHT + 3600, 0),
    ];
    let rows = mods_to_create_or_update(&page, &known, 8, false);
    let ids: Vec<i32> = rows.iter().map(|m| m.nexus_mod_id).collect();
    assert_eq!(ids, vec![1, 3, 4]);
    assert!(rows.iter().all(|m| m.game_id == 8 && !m.is_translation));
    assert_eq!(rows[0], unsaved_mod(&page[0], 8, false));
}

#[test]
fn a_page_of_current_mods_gives_nothing_to_write_and_counts_as_idle() {
    let page = vec![scraped(1, DAY), scraped(2, DAY - 5)];
    let known = vec![processed(1, MIDNIGHT + 1, 0), processed(2, MIDNIGHT, 0)];
    let rows = mods_to_create_or_update(&page, &known, 8, false);
    assert_eq!(rows, vec![]);
    let state = CrawlState::start(1).after_page(true, rows.len());
    assert_eq!(state.pages_with_no_updates, 1);
}

fn ids(ids: &[i32]) -> HashSet<i32> {
    ids.iter().copied().collect()
}

#[test]
fn files_without_category_or_archived_are_left_out() {
    assert!(file_is_due(&api_file(1, Some("MAIN")), &ids(&[])));
    assert!(file_is_due(&api_file(1, Some("OLD_VERSION")), &ids(&[])));
    assert!(file_is_due(&api_file(1, Some("archived")), &ids(&[])));
    assert!(file_is_due(&api_file(1, Some("")), &ids(&[])));
    assert!(!file_is_due(&api_file(1, Some("ARCHIVED")), &ids(&[])));
    assert!(!file_is_due(&api_file(1, None), &ids(&[])));
}

#[test]
fn processed_files_are_left_out() {
    assert!(!file_is_due(&api_file(7, Some("MAIN")), &ids(&[3, 7])));
    assert!(file_is_due(&api_file(8, Some("MAIN")), &ids(&[3, 7])));
    assert!(!file_is_due(&api_file((1 << 32) + 7, Some("MAIN")), &ids(&[7])));
    assert!(!file_is_due(&api_file(0xFFFF_FFFF, Some("MAIN")), &ids(&[-1])));
}

#[test]
fn an_id_listed_twice_as_processed_is_processed() {
    let due = files_to_process(&vec![api_file(7, Some("MAIN")), api_file(8, Some("MAIN"))], &vec![7, 7, 7]);
    assert_eq!(due, vec![api_file(8, Some("MAIN"))]);
}

#[test]
fn files_to_process_keeps_the_order_of_the_api() {
    let files = vec![
        api_file(5, Some("MAIN")),
        api_file(4, None),
        api_file(3, Some("ARCHIVED")),
        api_file(2, Some("OPTIONAL")),
        api_file(1, Some("MAIN")),
    ];
    let due = files_to_process(&files, &vec![1]);
    assert_eq!(due, vec![api_file(5, Some("MAIN")), api_file(2, Some("OPTIONAL"))]);
    assert_eq!(files_to_process(&files, &vec![5, 2, 1]), vec![]);
    assert_eq!(files_to_process(&vec![], &vec![1]), vec![]);
}

#[test]
fn a_file_starts_with_the_preview_where_there_is_one() {
    let (state, actions) = run(&[FileEvent::Upserted { has_preview: true }]);
    assert_eq!(actions, vec![FileAction::FetchMetadata]);
    assert_eq!(state, FileState { stage: FileStage::AwaitingMetadata, flags: initial_flags() });
    let (state, actions) = run(&[FileEvent::Upserted { has_preview: false }]);
    assert_eq!(actions, vec![FileAction::RequestLink]);
    assert_eq!(
        state,
        FileState { stage: FileStage::AwaitingLink { checked_metadata: false }, flags: initial_flags() }
    );
}

#[test]
fn a_preview_without_plugin_ends_the_file_before_any_download() {
    let (state, row) = run_on_row(&[
        FileEvent::Upserted { has_preview: true },
        FileEvent::Metadata(MetadataOutcome::Reports(false)),
    ]);
    assert_eq!(state.stage, FileStage::Finished(FileOutcome::NoPlugin));
    assert!(!row.has_plugin);
    assert_eq!(row.downloaded_at, None);
    assert!(row.has_download_link);
    assert!(!row.unable_to_extract_plugins);
    assert!(row.is_processed());
    let (_, actions) = run(&[
        FileEvent::Upserted { has_preview: true },
        FileEvent::Metadata(MetadataOutcome::Reports(false)),
    ]);
    assert_eq!(actions, vec![FileAction::FetchMetadata, FileAction::MarkNoPlugin]);
}

#[test]
fn a_failed_preview_does_not_stop_the_download() {
    let (state, actions) = run(&[
        FileEvent::Upserted { has_preview: true },
        FileEvent::Metadata(MetadataOutcome::Failed),
    ]);
    assert_eq!(actions[1], FileAction::RequestLink);
    assert_eq!(state.stage, FileStage::AwaitingLink { checked_metadata: false });
    let (state, _) = run(&[
        FileEvent::Upserted { has_preview: true },
        FileEvent::Metadata(MetadataOutcome::Reports(true)),
    ]);
    assert_eq!(state.stage, FileStage::AwaitingLink { checked_metadata: true });
}

#[test]
fn a_missing_download_link_is_recorded_and_the_file_is_done() {
    let (state, row) = run_on_row(&[
        FileEvent::Upserted { has_preview: false },
        FileEvent::Link(LinkOutcome::NotFound),
    ]);
    assert_eq!(state.stage, FileStage::Finished(FileOutcome::NoDownloadLink));
    assert!(!row.has_download_link);
    assert!(row.has_plugin);
    assert_eq!(row.downloaded_at, None);
    assert!(row.is_processed());
    let (_, actions) = run(&[
        FileEvent::Upserted { has_preview: false },
        FileEvent::Link(LinkOutcome::NotFound),
    ]);
    assert_eq!(actions[1], FileAction::MarkNoDownloadLink);
}

#[test]
fn a_failed_link_or_download_passes_the_file_over_without_a_mark() {
    for events in [
        vec![FileEvent::Upserted { has_preview: false }, FileEvent::Link(LinkOutcome::Failed)],
        vec![
            FileEvent::Upserted { has_preview: false },
            FileEvent::Link(LinkOutcome::Found),
            FileEvent::Download { succeeded: false },
        ],
    ] {
        let (state, row) = run_on_row(&events);
        assert_eq!(state.stage, FileStage::Finished(FileOutcome::Skipped));
        assert_eq!(row, file_row());
        assert!(!row.is_processed());
        let (_, actions) = run(&events);
        assert_eq!(actions.last(), Some(&FileAction::Skip));
    }
}

#[test]
fn a_zip_is_extracted_by_streaming_and_the_file_ends_processed() {
    let (state, actions) = run(&[
        FileEvent::Upserted { has_preview: true },
        FileEvent::Metadata(MetadataOutcome::Reports(true)),
        FileEvent::Link(LinkOutcome::Found),
        FileEvent::Download { succeeded: true },
        FileEvent::InitialBytes(Some(ZIP)),
        FileEvent::Extraction(ExtractionOutcome::Done),
    ]);
    assert_eq!(
        actions,
        vec![
            FileAction::FetchMetadata,
            FileAction::RequestLink,
            FileAction::Download,
            FileAction::ReadStart,
            FileAction::Extract(Strategy::Streaming),
            FileAction::MarkDownloadedAndPace,
        ]
    );
    assert_eq!(
        state,
        FileState { stage: FileStage::Finished(FileOutcome::Processed), flags: downloaded_flags() }
    );
}

#[test]
fn an_archive_without_plugins_still_ends_with_the_download_recorded() {
    let (state, row) = run_on_row(&[
        FileEvent::Upserted { has_preview: false },
        FileEvent::Link(LinkOutcome::Found),
        FileEvent::Download { succeeded: true },
        FileEvent::InitialBytes(Some(ZIP)),
        FileEvent::Extraction(ExtractionOutcome::Done),
    ]);
    assert_eq!(state.stage, FileStage::Finished(FileOutcome::Processed));
    assert_eq!(row.downloaded_at, Some(Timestamp { seconds: 99, nanos: 0 }));
    assert!(!row.unable_to_extract_plugins);
    assert!(row.is_processed());
}

#[test]
fn a_rar_that_the_native_extractor_fails_on_goes_to_7z() {
    let (state, actions) = run(&[
        FileEvent::Upserted { has_preview: false },
        FileEvent::Link(LinkOutcome::Found),
        FileEvent::Download { succeeded: true },
        FileEvent::InitialBytes(Some(RAR)),
        FileEvent::Extraction(ExtractionOutcome::Failed(ExtractionFailure::Other)),
        FileEvent::Extraction(ExtractionOutcome::Done),
    ]);
    assert_eq!(
        actions[3..],
        [
            FileAction::Extract(Strategy::NativeRar),
            FileAction::Extract(Strategy::External7z),
            FileAction::MarkDownloadedAndPace,
        ]
    );
    assert_eq!(
        state,
        FileState { stage: FileStage::Finished(FileOutcome::Processed), flags: downloaded_flags() }
    );
}

#[test]
fn a_zip_that_streaming_cannot_decode_goes_to_7z_and_then_no_further() {
    let (state, actions) = run(&[
        FileEvent::Upserted { has_preview: false },
        FileEvent::Link(LinkOutcome::Found),
        FileEvent::Download { succeeded: true },
        FileEvent::InitialBytes(Some(ZIP)),
        FileEvent::Extraction(ExtractionOutcome::Failed(ExtractionFailure::Extractor)),
        FileEvent::Extraction(ExtractionOutcome::Failed(ExtractionFailure::Extractor)),
    ]);
    assert_eq!(
        actions[3..],
        [
            FileAction::Extract(Strategy::Streaming),
            FileAction::Extract(Strategy::External7z),
            FileAction::Abort,
        ]
    );
    assert_eq!(state.stage, FileStage::Finished(FileOutcome::Fatal));
}

#[test]
fn another_archive_has_no_fallback() {
    let (state, actions) = run(&[
        FileEvent::Upserted { has_preview: false },
        FileEvent::Link(LinkOutcome::Found),
        FileEvent::Download { succeeded: true },
        FileEvent::InitialBytes(Some(GZ)),
        FileEvent::Extraction(ExtractionOutcome::Failed(ExtractionFailure::Extractor)),
    ]);
    assert_eq!(actions[3..], [FileAction::Extract(Strategy::Streaming), FileAction::Abort]);
    assert_eq!(state.stage, FileStage::Finished(FileOutcome::Fatal));
}

#[test]
fn an_installer_or_an_unknown_download_is_given_up() {
    for bytes in [Some(EXE), Some([0u8; 8]), None] {
        let (state, row) = run_on_row(&[
            FileEvent::Upserted { has_preview: false },
            FileEvent::Link(LinkOutcome::Found),
            FileEvent::Download { succeeded: true },
            FileEvent::InitialBytes(bytes),
        ]);
        assert_eq!(state.stage, FileStage::Finished(FileOutcome::UnableToExtract));
        assert!(row.unable_to_extract_plugins);
        assert!(row.downloaded_at.is_some());
        assert!(row.is_processed());
    }
}

#[test]
fn an_unreadable_archive_is_given_up_or_fatal_by_the_preview() {
    let unchecked = on_extraction(
        false,
        ArchiveKind::Rar,
        Strategy::NativeRar,
        initial_flags(),
        ExtractionOutcome::Unreadable,
    );
    assert_eq!(unchecked.1, FileAction::MarkUnableToExtract);
    assert_eq!(unchecked.0.stage, FileStage::Finished(FileOutcome::UnableToExtract));
    assert!(unchecked.0.flags.unable_to_extract_plugins);
    assert!(unchecked.0.flags.downloaded);
    let checked = on_extraction(
        true,
        ArchiveKind::Rar,
        Strategy::NativeRar,
        initial_flags(),
        ExtractionOutcome::Unreadable,
    );
    assert_eq!(checked.1, FileAction::Abort);
    assert_eq!(
        checked.0,
        FileState { stage: FileStage::Finished(FileOutcome::Fatal), flags: initial_flags() }
    );
}

#[test]
fn an_archive_that_cannot_be_unpacked_is_given_up() {
    for checked in [false, true] {
        let (state, action) = on_extraction(
            checked,
            ArchiveKind::Rar,
            Strategy::NativeRar,
            initial_flags(),
            ExtractionOutcome::Unpackable,
        );
        assert_eq!(action, FileAction::MarkUnableToExtract);
        assert_eq!(state.stage, FileStage::Finished(FileOutcome::UnableToExtract));
        assert_eq!(
            state.flags,
            FileFlags { unable_to_extract_plugins: true, ..downloaded_flags() }
        );
    }
}

#[test]
fn on_kind_picks_the_first_strategy() {
    let (state, action) = on_kind(true, initial_flags(), Some(ArchiveKind::SevenZip));
    assert_eq!(action, FileAction::Extract(Strategy::Streaming));
    assert_eq!(
        state.stage,
        FileStage::Extracting {
            checked_metadata: true,
            kind: ArchiveKind::SevenZip,
            strategy: Strategy::Streaming,
        }
    );
    let (state, action) = on_kind(true, initial_flags(), Some(ArchiveKind::Executable));
    assert_eq!(action, FileAction::MarkUnableToExtract);
    assert_eq!(state.stage, FileStage::Finished(FileOutcome::UnableToExtract));
    let (_, action) = on_kind(false, initial_flags(), None);
    assert_eq!(action, FileAction::MarkUnableToExtract);
}

#[test]
fn a_report_that_does_not_fit_changes_nothing() {
    let start = FileState::new();
    for event in [
        FileEvent::Metadata(MetadataOutcome::Reports(false)),
        FileEvent::Link(LinkOutcome::NotFound),
        FileEvent::Download { succeeded: true },
        FileEvent::InitialBytes(Some(ZIP)),
        FileEvent::Extraction(ExtractionOutcome::Done),
    ] {
        assert_eq!(step(start, event), (start, FileAction::Nothing));
    }
    let done = FileState { stage: FileStage::Finished(FileOutcome::NoPlugin), flags: initial_flags() };
    assert_eq!(step(done, FileEvent::Upserted { has_preview: true }), (done, FileAction::Nothing));
}

#[test]
fn a_mod_is_complete_when_no_file_was_passed_over() {
    assert!(mod_is_complete(&vec![]));
    assert!(mod_is_complete(&vec![
        FileOutcome::Processed,
        FileOutcome::NoPlugin,
        FileOutcome::NoDownloadLink,
        FileOutcome::UnableToExtract,
    ]));
    assert!(!mod_is_complete(&vec![FileOutcome::Processed, FileOutcome::Skipped]));
    assert!(!mod_is_complete(&vec![FileOutcome::Fatal, FileOutcome::Processed]));
}

#[test]
fn the_download_is_not_recorded_while_the_archive_is_read_or_extracted() {
    let events = [
        FileEvent::Upserted { has_preview: true },
        FileEvent::Metadata(MetadataOutcome::Reports(true)),
        FileEvent::Link(LinkOutcome::Found),
        FileEvent::Download { succeeded: true },
        FileEvent::InitialBytes(Some(ZIP)),
        FileEvent::Extraction(ExtractionOutcome::Failed(ExtractionFailure::Extractor)),
    ];
    for n in 0..=events.len() {
        let (state, row) = run_on_row(&events[..n]);
        assert_eq!(state.flags, initial_flags());
        assert_eq!(row.downloaded_at, None);
        assert!(!row.is_processed());
    }
}

#[test]
fn a_file_that_ends_the_run_has_no_download_recorded_and_is_taken_up_again() {
    let (state, row) = run_on_row(&[
        FileEvent::Upserted { has_preview: true },
        FileEvent::Metadata(MetadataOutcome::Reports(true)),
        FileEvent::Link(LinkOutcome::Found),
        FileEvent::Download { succeeded: true },
        FileEvent::InitialBytes(Some(RAR)),
        FileEvent::Extraction(ExtractionOutcome::Unreadable),
    ]);
    assert_eq!(
        state,
        FileState { stage: FileStage::Finished(FileOutcome::Fatal), flags: initial_flags() }
    );
    assert_eq!(row.downloaded_at, None);
    assert!(!row.unable_to_extract_plugins);
    assert!(!row.is_processed());
    assert!(!mod_is_complete(&vec![FileOutcome::Fatal]));
}

#[test]
fn a_recorded_download_means_extracted_to_the_end_or_marked() {
    let reports = [
        FileEvent::Upserted { has_preview: true },
        FileEvent::Upserted { has_preview: false },
        FileEvent::Metadata(MetadataOutcome::Reports(true)),
        FileEvent::Metadata(MetadataOutcome::Failed),
        FileEvent::Link(LinkOutcome::Found),
        FileEvent::Download { succeeded: true },
        FileEvent::InitialBytes(Some(ZIP)),
        FileEvent::InitialBytes(Some(RAR)),
        FileEvent::InitialBytes(Some(EXE)),
        FileEvent::InitialBytes(None),
        FileEvent::Extraction(ExtractionOutcome::Done),
        FileEvent::Extraction(ExtractionOutcome::Unreadable),
        FileEvent::Extraction(ExtractionOutcome::Unpackable),
        FileEvent::Extraction(ExtractionOutcome::Failed(ExtractionFailure::Extractor)),
        FileEvent::Extraction(ExtractionOutcome::Failed(ExtractionFailure::Other)),
    ];
    let mut runs: Vec<Vec<FileEvent>> = vec![vec![]];
    for _ in 0..6 {
        let mut longer = Vec::new();
        for run in &runs {
            for report in &reports {
                let mut next = run.clone();
                next.push(*report);
                longer.push(next);
            }
        }
        for events in &longer {
            let (state, row) = run_on_row(events);
            if row.downloaded_at.is_some() {
                assert!(
                    state.stage == FileStage::Finished(FileOutcome::Processed)
                        || (state.stage == FileStage::Finished(FileOutcome::UnableToExtract)
                            && row.unable_to_extract_plugins)
                );
            }
        }
        runs = longer.into_iter().filter(|events| run(events).1.last() != Some(&FileAction::Nothing)).collect();
    }
}

#[test]
fn a_crawl_counts_its_pages_from_one() {
    assert_eq!(CrawlState::start(1).offset(), Some(0));
    assert_eq!(CrawlState::start(2).offset(), Some(20));
    assert_eq!(CrawlState::start(8).offset(), Some(140));
    assert_eq!(CrawlState::start(0).offset(), Some(0));
    assert_eq!(CrawlState::start(usize::MAX).offset(), None);
}

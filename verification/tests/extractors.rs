use modmapper::extractors::{
    after_failure, archive_kind, is_plugin_path, normalize_path, path_within, primary_strategy,
    select_plugin_entries, sniff, unreadable_archive, AfterFailure, ArchiveEntry, ArchiveKind,
    ExtractionFailure, Extractor, NextPlugin, Strategy, UnreadableArchive, SNIFF_LEN,
};

const KINDS: [ArchiveKind; 5] = [
    ArchiveKind::Rar,
    ArchiveKind::Zip,
    ArchiveKind::SevenZip,
    ArchiveKind::Executable,
    ArchiveKind::Other,
];

const STRATEGIES: [Strategy; 3] = [Strategy::NativeRar, Strategy::Streaming, Strategy::External7z];

fn entry(path: &str, is_file: bool) -> ArchiveEntry {
    ArchiveEntry { path: path.to_string(), is_file }
}

fn drain(extractor: &mut Extractor) -> Vec<String> {
    let mut out = Vec::new();
    loop {
        match extractor.next() {
            NextPlugin::Decode(path) => out.push(path),
            NextPlugin::Finished => return out,
            NextPlugin::ListArchive => panic!("the archive was listed already"),
        }
    }
}

#[test]
fn sniff_reads_eight_bytes() {
    assert_eq!(SNIFF_LEN, 8);
}

#[test]
fn sniff_knows_zip_archives() {
    assert_eq!(sniff(&[0x50, 0x4B, 0x03, 0x04, 0x14, 0, 0, 0]), Some(ArchiveKind::Zip));
    assert_eq!(sniff(&[0x50, 0x4B, 0x05, 0x06, 0, 0, 0, 0]), Some(ArchiveKind::Zip));
}

#[test]
fn sniff_knows_rar_archives() {
    assert_eq!(sniff(&[0x52, 0x61, 0x72, 0x21, 0x1A, 0x07, 0x00, 0xCF]), Some(ArchiveKind::Rar));
    assert_eq!(sniff(&[0x52, 0x61, 0x72, 0x21, 0x1A, 0x07, 0x01, 0x00]), Some(ArchiveKind::Rar));
}

#[test]
fn sniff_knows_7z_archives() {
    assert_eq!(
        sniff(&[0x37, 0x7A, 0xBC, 0xAF, 0x27, 0x1C, 0x00, 0x04]),
        Some(ArchiveKind::SevenZip)
    );
}

#[test]
fn sniff_knows_installers() {
    assert_eq!(sniff(&[0x4D, 0x5A, 0x90, 0, 3, 0, 0, 0]), Some(ArchiveKind::Executable));
}

#[test]
fn sniff_takes_other_known_types_for_other() {
    assert_eq!(sniff(&[0x1F, 0x8B, 0x08, 0, 0, 0, 0, 0]), Some(ArchiveKind::Other));
    assert_eq!(sniff(&[0x89, b'P', b'N', b'G', 0x0D, 0x0A, 0x1A, 0x0A]), Some(ArchiveKind::Other));
}

#[test]
fn sniff_gives_up_on_unknown_bytes() {
    assert_eq!(sniff(&[0; 8]), None);
    assert_eq!(sniff(&[0xFF; 8]), None);
    assert_eq!(sniff(b"TES4\x2b\0\0\0"), None);
}

#[test]
fn sniff_does_not_fail_on_any_first_two_bytes() {
    for a in 0..=255u8 {
        for b in 0..=255u8 {
            let _ = sniff(&[a, b, 0x03, 0x04, 0x1A, 0x07, 0x00, 0xE1]);
        }
    }
}

#[test]
fn sniff_survives_the_start_of_a_compound_document() {
    let start = [0xD0, 0xCF, 0x11, 0xE0, 0xA1, 0xB1, 0x1A, 0xE1];
    assert_eq!(sniff(&start).is_some(), infer::get(&start).is_some());
}

#[test]
fn sniff_agrees_with_infer_on_many_starts() {
    let mut seed: u64 = 0x9E37_79B9_7F4A_7C15;
    for _ in 0..20_000 {
        seed = seed.wrapping_mul(6_364_136_223_846_793_005).wrapping_add(1_442_695_040_888_963_407);
        let mut bytes = seed.to_le_bytes();
        // bias the first bytes towards known magic numbers
        match seed >> 61 {
            0 => bytes[..4].copy_from_slice(&[0x50, 0x4B, 0x03, 0x04]),
            1 => bytes[..6].copy_from_slice(&[0x52, 0x61, 0x72, 0x21, 0x1A, 0x07]),
            2 => bytes[..6].copy_from_slice(&[0x37, 0x7A, 0xBC, 0xAF, 0x27, 0x1C]),
            3 => bytes[..2].copy_from_slice(&[0x4D, 0x5A]),
            _ => {}
        }
        let expected = infer::get(&bytes).map(|kind| archive_kind(kind.mime_type()));
        assert_eq!(sniff(&bytes), expected);
    }
}

#[test]
fn archive_kind_goes_by_the_exact_mime_type() {
    assert_eq!(archive_kind("application/vnd.rar"), ArchiveKind::Rar);
    assert_eq!(archive_kind("application/zip"), ArchiveKind::Zip);
    assert_eq!(archive_kind("application/x-7z-compressed"), ArchiveKind::SevenZip);
    assert_eq!(
        archive_kind("application/vnd.microsoft.portable-executable"),
        ArchiveKind::Executable
    );
    assert_eq!(archive_kind("application/gzip"), ArchiveKind::Other);
    assert_eq!(archive_kind("application/ZIP"), ArchiveKind::Other);
    assert_eq!(archive_kind(""), ArchiveKind::Other);
}

#[test]
fn primary_strategy_follows_the_kind() {
    assert_eq!(primary_strategy(ArchiveKind::Rar), Some(Strategy::NativeRar));
    assert_eq!(primary_strategy(ArchiveKind::Zip), Some(Strategy::Streaming));
    assert_eq!(primary_strategy(ArchiveKind::SevenZip), Some(Strategy::Streaming));
    assert_eq!(primary_strategy(ArchiveKind::Other), Some(Strategy::Streaming));
    assert_eq!(primary_strategy(ArchiveKind::Executable), None);
}

#[test]
fn rar_falls_back_to_7z_on_any_failure() {
    for failure in [ExtractionFailure::Extractor, ExtractionFailure::Other] {
        assert_eq!(
            after_failure(ArchiveKind::Rar, Strategy::NativeRar, failure),
            AfterFailure::FallBack(Strategy::External7z)
        );
    }
}

#[test]
fn zip_and_7z_fall_back_to_7z_on_extractor_failure_only() {
    for kind in [ArchiveKind::Zip, ArchiveKind::SevenZip] {
        assert_eq!(
            after_failure(kind, Strategy::Streaming, ExtractionFailure::Extractor),
            AfterFailure::FallBack(Strategy::External7z)
        );
        assert_eq!(
            after_failure(kind, Strategy::Streaming, ExtractionFailure::Other),
            AfterFailure::Fatal
        );
    }
}

#[test]
fn other_kinds_have_no_fallback() {
    for kind in [ArchiveKind::Other, ArchiveKind::Executable] {
        for strategy in STRATEGIES {
            for failure in [ExtractionFailure::Extractor, ExtractionFailure::Other] {
                assert_eq!(after_failure(kind, strategy, failure), AfterFailure::Fatal);
            }
        }
    }
}

#[test]
fn the_fallback_has_no_fallback() {
    for kind in KINDS {
        for failure in [ExtractionFailure::Extractor, ExtractionFailure::Other] {
            assert_eq!(after_failure(kind, Strategy::External7z, failure), AfterFailure::Fatal);
        }
    }
}

#[test]
fn an_unreadable_archive_is_fatal_only_where_the_preview_promised_a_plugin() {
    assert_eq!(unreadable_archive(false), UnreadableArchive::MarkUnableToExtract);
    assert_eq!(unreadable_archive(true), UnreadableArchive::Fatal);
}

#[test]
fn plugin_paths_end_in_a_plugin_extension_in_any_case() {
    for path in [
        "a.esp",
        "Data/My Mod.esm",
        "Data\\Sub\\light.esl",
        "SHOUTING.ESP",
        "Mixed.EsM",
        ".esl",
        "ünïcödé.esp",
        "dir.esp/inner.esp",
    ] {
        assert!(is_plugin_path(path), "{}", path);
    }
}

#[test]
fn other_paths_are_no_plugin_paths() {
    for path in [
        "",
        "esp",
        "a.esp.bak",
        "a.es",
        "a.esp/",
        "a.esp ",
        "a.espx",
        "readme.txt",
        "a.bsa",
        "a.éSP",
        "a\u{2e}es\u{ff50}",
    ] {
        assert!(!is_plugin_path(path), "{}", path);
    }
}

#[test]
fn normalize_path_turns_backslashes_into_slashes() {
    assert_eq!(normalize_path("Data\\Sub\\a.esp"), "Data/Sub/a.esp");
    assert_eq!(normalize_path("Data/Sub/a.esp"), "Data/Sub/a.esp");
    assert_eq!(normalize_path("mixed\\one/two\\"), "mixed/one/two/");
    assert_eq!(normalize_path("\\\\"), "//");
    assert_eq!(normalize_path(""), "");
    assert_eq!(normalize_path("ünï\\cödé"), "ünï/cödé");
}

#[test]
fn select_plugin_entries_keeps_plugin_files_in_order() {
    let entries = vec![
        entry("readme.txt", true),
        entry("b.esp", true),
        entry("folder.esp", false),
        entry("Data/a.ESM", true),
        entry("Data", false),
        entry("b.esp", true),
    ];
    assert_eq!(select_plugin_entries(&entries), vec!["b.esp", "Data/a.ESM", "b.esp"]);
    assert_eq!(select_plugin_entries(&vec![]), Vec::<String>::new());
}

#[test]
fn extractor_asks_for_the_listing_first() {
    let mut extractor = Extractor::new();
    assert_eq!(extractor.next(), NextPlugin::ListArchive);
    assert_eq!(extractor.next(), NextPlugin::ListArchive);
}

#[test]
fn extractor_hands_out_each_plugin_once_in_the_order_of_the_listing() {
    let listing: Vec<String> =
        ["z.esp", "textures/a.dds", "a.esm", "m.ESL", "docs/", "a.esm"].map(String::from).to_vec();
    let mut extractor = Extractor::new();
    extractor.list_plugins(&listing);
    assert_eq!(drain(&mut extractor), vec!["z.esp", "a.esm", "m.ESL", "a.esm"]);
    assert_eq!(extractor.next(), NextPlugin::Finished);
}

#[test]
fn extractor_of_an_archive_without_plugins_yields_nothing() {
    let listing: Vec<String> = ["readme.txt", "meshes/a.nif", "esp"].map(String::from).to_vec();
    let mut extractor = Extractor::new();
    extractor.list_plugins(&listing);
    assert_eq!(extractor.next(), NextPlugin::Finished);
    let mut extractor = Extractor::new();
    extractor.list_plugins(&vec![]);
    assert_eq!(extractor.next(), NextPlugin::Finished);
}

#[test]
fn extractor_listing_again_replaces_the_queue() {
    let mut extractor = Extractor::new();
    extractor.list_plugins(&vec!["a.esp".to_string(), "b.esp".to_string()]);
    assert_eq!(extractor.next(), NextPlugin::Decode("a.esp".to_string()));
    extractor.list_plugins(&vec!["c.esp".to_string()]);
    assert_eq!(drain(&mut extractor), vec!["c.esp"]);
}

#[test]
fn path_within_drops_the_directory_of_the_unpacked_archive() {
    assert_eq!(path_within("/tmp/x/extracted", "/tmp/x/extracted/Data/a.esp"), "Data/a.esp");
    assert_eq!(path_within("/tmp/x/extracted", "/tmp/x/extracted/a.esp"), "a.esp");
    assert_eq!(path_within("", "/a.esp"), "a.esp");
    assert_eq!(path_within("a", "a/"), "");
}

#[test]
fn path_within_leaves_other_paths_as_they_are() {
    assert_eq!(path_within("/tmp/x/extracted", "/tmp/y/extracted/a.esp"), "/tmp/y/extracted/a.esp");
    assert_eq!(path_within("/tmp/x/extracted", "/tmp/x/extracted2/a.esp"), "/tmp/x/extracted2/a.esp");
    assert_eq!(path_within("/tmp/x/extracted", "/tmp/x/extracted"), "/tmp/x/extracted");
    assert_eq!(path_within("/tmp/x/extracted/", "/tmp/x/extracted/a.esp"), "/tmp/x/extracted/a.esp");
    assert_eq!(path_within("/long/root", "/l"), "/l");
    assert_eq!(path_within("", "a.esp"), "a.esp");
    assert_eq!(path_within("", ""), "");
}

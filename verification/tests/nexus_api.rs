use modmapper::json::Json;
use modmapper::nexus_api::download_link::{DownloadLinkResponse, LinkError};
use modmapper::nexus_api::files::{decode_file, ApiFile, FilesError, FilesResponse};
use modmapper::nexus_api::game_mod::{ExtractedModData, ModDataError, ModResponse};
use modmapper::nexus_api::metadata::{contains_plugin, has_plugin, is_plugin_name, MetadataError};
use modmapper::time::{Timestamp, Wait};

fn text(s: &str) -> Json {
    Json::Text(s.to_string())
}

fn object(members: Vec<(&str, Json)>) -> Json {
    Json::Object(members.into_iter().map(|(k, v)| (k.to_string(), v)).collect())
}

fn without(value: &Json, key: &str) -> Json {
    match value {
        Json::Object(members) => Json::Object(
            members
                .iter()
                .filter(|(k, _)| k != key)
                .map(|(k, v)| (k.clone(), copy(v)))
                .collect(),
        ),
        other => copy(other),
    }
}

fn with(value: &Json, key: &str, new: Json) -> Json {
    let mut members = match without(value, key) {
        Json::Object(members) => members,
        _ => Vec::new(),
    };
    members.push((key.to_string(), new));
    Json::Object(members)
}

fn copy(value: &Json) -> Json {
    match value {
        Json::Null => Json::Null,
        Json::Bool(b) => Json::Bool(*b),
        Json::Int(n) => Json::Int(*n),
        Json::Number => Json::Number,
        Json::Text(s) => Json::Text(s.clone()),
        Json::Array(items) => Json::Array(items.iter().map(copy).collect()),
        Json::Object(members) => {
            Json::Object(members.iter().map(|(k, v)| (k.clone(), copy(v))).collect())
        }
    }
}

fn wait() -> Wait {
    Wait { seconds: 1, nanos: 0 }
}

fn file_json() -> Json {
    object(vec![
        ("file_id", Json::Int(1234)),
        ("name", text("Main File")),
        ("file_name", text("Main File-1-0.zip")),
        ("category_name", text("MAIN")),
        ("version", text("1.0")),
        ("mod_version", Json::Null),
        ("size_in_bytes", Json::Int(2048)),
        ("size_kb", Json::Int(2)),
        ("content_preview_link", text("https://example.test/preview.json")),
        ("uploaded_timestamp", Json::Int(1_600_000_000)),
    ])
}

fn file_value() -> ApiFile {
    ApiFile {
        file_id: 1234,
        name: "Main File".to_string(),
        file_name: "Main File-1-0.zip".to_string(),
        category: Some("MAIN".to_string()),
        version: Some("1.0".to_string()),
        mod_version: None,
        size: 2048,
        content_preview_link: Some("https://example.test/preview.json".to_string()),
        uploaded_at: Timestamp { seconds: 1_600_000_000, nanos: 0 },
    }
}

#[test]
fn json_get_finds_the_first_member_of_a_name() {
    let value = object(vec![("a", Json::Int(1)), ("b", Json::Int(2)), ("a", Json::Int(3))]);
    assert_eq!(value.get("a"), Some(&Json::Int(1)));
    assert_eq!(value.get("b"), Some(&Json::Int(2)));
    assert_eq!(value.get("c"), None);
    assert_eq!(Json::Array(vec![]).get("a"), None);
    assert_eq!(Json::Null.get("a"), None);
}

#[test]
fn json_get_index_reads_arrays_only() {
    let value = Json::Array(vec![Json::Int(7), Json::Null]);
    assert_eq!(value.get_index(0), Some(&Json::Int(7)));
    assert_eq!(value.get_index(1), Some(&Json::Null));
    assert_eq!(value.get_index(2), None);
    assert_eq!(object(vec![("0", Json::Int(1))]).get_index(0), None);
}

#[test]
fn json_accessors_answer_only_for_their_own_shape() {
    assert_eq!(text("x").as_str(), Some(&"x".to_string()));
    assert_eq!(Json::Int(1).as_str(), None);
    assert_eq!(Json::Int(-9).as_i64(), Some(-9));
    assert_eq!(Json::Number.as_i64(), None);
    assert_eq!(text("1").as_i64(), None);
    assert_eq!(Json::Array(vec![Json::Null]).as_array(), Some(&vec![Json::Null]));
    assert_eq!(Json::Null.as_array(), None);
}

#[test]
fn files_decodes_a_list_in_order() {
    let second = with(&file_json(), "file_id", Json::Int(77));
    let body = object(vec![("files", Json::Array(vec![file_json(), second]))]);
    let response = FilesResponse { wait: wait(), json: body };
    let mut expected_second = file_value();
    expected_second.file_id = 77;
    assert_eq!(response.files(), Ok(vec![file_value(), expected_second]));
}

#[test]
fn files_decodes_an_empty_list() {
    let response = FilesResponse { wait: wait(), json: object(vec![("files", Json::Array(vec![]))]) };
    assert_eq!(response.files(), Ok(vec![]));
}

#[test]
fn files_needs_an_array_under_files() {
    let response = FilesResponse { wait: wait(), json: object(vec![]) };
    assert_eq!(response.files(), Err(FilesError::MissingFiles));
    let response = FilesResponse { wait: wait(), json: Json::Array(vec![]) };
    assert_eq!(response.files(), Err(FilesError::MissingFiles));
    let response = FilesResponse { wait: wait(), json: object(vec![("files", Json::Null)]) };
    assert_eq!(response.files(), Err(FilesError::FilesNotArray));
}

#[test]
fn files_fails_with_the_fault_of_the_first_bad_element() {
    let bad_name = with(&file_json(), "name", Json::Int(1));
    let bad_id = without(&file_json(), "file_id");
    let body = object(vec![("files", Json::Array(vec![file_json(), bad_name, bad_id]))]);
    let response = FilesResponse { wait: wait(), json: body };
    assert_eq!(response.files(), Err(FilesError::NameNotString));
}

#[test]
fn file_optional_texts_may_be_null() {
    let mut value = file_json();
    for key in ["category_name", "version", "mod_version", "content_preview_link"] {
        value = with(&value, key, Json::Null);
    }
    let mut expected = file_value();
    expected.category = None;
    expected.version = None;
    expected.mod_version = None;
    expected.content_preview_link = None;
    assert_eq!(decode_file(&value), Ok(expected));
}

#[test]
fn file_size_falls_back_to_kilobytes() {
    let value = with(&file_json(), "size_in_bytes", Json::Null);
    let mut expected = file_value();
    expected.size = 2000;
    assert_eq!(decode_file(&value), Ok(expected));
}

#[test]
fn file_size_in_kilobytes_must_fit() {
    let value = with(&file_json(), "size_in_bytes", Json::Null);
    let value = with(&value, "size_kb", Json::Int(i64::MAX / 1000 + 1));
    assert_eq!(decode_file(&value), Err(FilesError::SizeOutOfRange));
    let value = with(&value, "size_kb", Json::Int(i64::MAX / 1000));
    assert_eq!(decode_file(&value).map(|f| f.size), Ok(i64::MAX / 1000 * 1000));
    let value = with(&value, "size_kb", Json::Int(i64::MIN));
    assert_eq!(decode_file(&value), Err(FilesError::SizeOutOfRange));
}

#[test]
fn file_reports_each_missing_member() {
    let cases = [
        ("file_id", FilesError::MissingFileId),
        ("name", FilesError::MissingName),
        ("file_name", FilesError::MissingFileName),
        ("category_name", FilesError::MissingCategory),
        ("version", FilesError::MissingVersion),
        ("mod_version", FilesError::MissingModVersion),
        ("size_in_bytes", FilesError::MissingSizeInBytes),
        ("content_preview_link", FilesError::MissingContentPreviewLink),
        ("uploaded_timestamp", FilesError::MissingUploadedTimestamp),
    ];
    for (key, error) in cases {
        assert_eq!(decode_file(&without(&file_json(), key)), Err(error));
    }
}

#[test]
fn file_reports_each_member_of_the_wrong_type() {
    let cases = [
        ("file_id", text("1"), FilesError::FileIdNotNumber),
        ("file_id", Json::Number, FilesError::FileIdNotNumber),
        ("name", Json::Null, FilesError::NameNotString),
        ("file_name", Json::Int(1), FilesError::FileNameNotString),
        ("uploaded_timestamp", text("now"), FilesError::UploadedTimestampNotNumber),
    ];
    for (key, value, error) in cases {
        assert_eq!(decode_file(&with(&file_json(), key, value)), Err(error));
    }
}

#[test]
fn file_reports_a_size_that_is_nowhere_a_number() {
    let value = with(&file_json(), "size_in_bytes", Json::Null);
    assert_eq!(
        decode_file(&with(&value, "size_kb", text("2"))),
        Err(FilesError::SizeNotNumber)
    );
    assert_eq!(decode_file(&without(&value, "size_kb")), Err(FilesError::MissingSizeKb));
}

#[test]
fn file_members_are_checked_in_a_fixed_order() {
    let value = without(&without(&file_json(), "uploaded_timestamp"), "version");
    assert_eq!(decode_file(&value), Err(FilesError::MissingVersion));
    let value = without(&with(&file_json(), "size_in_bytes", Json::Null), "content_preview_link");
    let value = without(&value, "size_kb");
    assert_eq!(decode_file(&value), Err(FilesError::MissingContentPreviewLink));
}

#[test]
fn link_is_the_uri_of_the_first_element() {
    let body = Json::Array(vec![
        object(vec![("name", text("CDN")), ("URI", text("https://cdn.test/a.zip"))]),
        object(vec![("URI", text("https://cdn.test/b.zip"))]),
    ]);
    let response = DownloadLinkResponse { wait: wait(), json: body };
    assert_eq!(response.link(), Ok("https://cdn.test/a.zip".to_string()));
}

#[test]
fn link_reports_what_is_missing() {
    let response = DownloadLinkResponse { wait: wait(), json: Json::Array(vec![]) };
    assert_eq!(response.link(), Err(LinkError::MissingFirstLink));
    let response = DownloadLinkResponse { wait: wait(), json: object(vec![("URI", text("x"))]) };
    assert_eq!(response.link(), Err(LinkError::MissingFirstLink));
    let response = DownloadLinkResponse { wait: wait(), json: Json::Array(vec![object(vec![])]) };
    assert_eq!(response.link(), Err(LinkError::MissingUri));
    let body = Json::Array(vec![object(vec![("URI", Json::Int(5))])]);
    let response = DownloadLinkResponse { wait: wait(), json: body };
    assert_eq!(response.link(), Err(LinkError::UriNotString));
}

fn mod_json() -> Json {
    object(vec![
        ("mod_id", Json::Int(266)),
        ("category_id", Json::Int(42)),
        ("name", text("Unofficial Patch")),
        ("description", text("Fixes things.")),
        ("picture_url", text("https://example.test/p.png")),
        ("user", object(vec![("name", text("Arthmoor")), ("member_id", Json::Int(684_492))])),
        ("updated_timestamp", Json::Int(1_700_000_000)),
        ("created_timestamp", Json::Int(1_500_000_000)),
    ])
}

fn mod_value() -> ExtractedModData {
    ExtractedModData {
        nexus_mod_id: 266,
        name: Some("Unofficial Patch".to_string()),
        category_id: Some(42),
        author_name: "Arthmoor".to_string(),
        author_id: 684_492,
        description: Some("Fixes things.".to_string()),
        thumbnail_link: Some("https://example.test/p.png".to_string()),
        last_update_at: Timestamp { seconds: 1_700_000_000, nanos: 0 },
        first_upload_at: Timestamp { seconds: 1_500_000_000, nanos: 0 },
    }
}

fn extract(json: Json) -> Result<ExtractedModData, ModDataError> {
    ModResponse { wait: wait(), json }.extract_data()
}

#[test]
fn mod_data_is_extracted() {
    assert_eq!(extract(mod_json()), Ok(mod_value()));
}

#[test]
fn mod_data_optional_members_may_be_absent() {
    let mut json = mod_json();
    for key in ["category_id", "name", "description", "picture_url"] {
        json = without(&json, key);
    }
    let mut expected = mod_value();
    expected.category_id = None;
    expected.name = None;
    expected.description = None;
    expected.thumbnail_link = None;
    assert_eq!(extract(json), Ok(expected));
}

#[test]
fn mod_data_thumbnail_of_the_wrong_type_is_left_out() {
    let mut expected = mod_value();
    expected.thumbnail_link = None;
    assert_eq!(extract(with(&mod_json(), "picture_url", Json::Null)), Ok(expected));
}

#[test]
fn mod_data_ids_keep_their_low_32_bits() {
    let json = with(&mod_json(), "mod_id", Json::Int((1i64 << 32) + 5));
    assert_eq!(extract(json).map(|d| d.nexus_mod_id), Ok(5));
    let json = with(&mod_json(), "mod_id", Json::Int(0xFFFF_FFFF));
    assert_eq!(extract(json).map(|d| d.nexus_mod_id), Ok(-1));
    let json = with(&mod_json(), "category_id", Json::Int(0x8000_0000));
    assert_eq!(extract(json).map(|d| d.category_id), Ok(Some(i32::MIN)));
}

#[test]
fn mod_data_reports_each_fault() {
    let user = |members: Vec<(&str, Json)>| with(&mod_json(), "user", object(members));
    let cases = vec![
        (without(&mod_json(), "mod_id"), ModDataError::MissingModId),
        (with(&mod_json(), "mod_id", text("1")), ModDataError::ModIdNotNumber),
        (with(&mod_json(), "category_id", Json::Null), ModDataError::CategoryIdNotNumber),
        (with(&mod_json(), "name", Json::Int(1)), ModDataError::NameNotString),
        (with(&mod_json(), "description", Json::Null), ModDataError::DescriptionNotString),
        (without(&mod_json(), "user"), ModDataError::MissingUser),
        (user(vec![("member_id", Json::Int(1))]), ModDataError::MissingUserName),
        (
            user(vec![("name", Json::Null), ("member_id", Json::Int(1))]),
            ModDataError::UserNameNotString,
        ),
        (user(vec![("name", text("a"))]), ModDataError::MissingMemberId),
        (
            user(vec![("name", text("a")), ("member_id", text("1"))]),
            ModDataError::MemberIdNotNumber,
        ),
        (without(&mod_json(), "updated_timestamp"), ModDataError::MissingUpdatedTimestamp),
        (
            with(&mod_json(), "updated_timestamp", Json::Number),
            ModDataError::UpdatedTimestampNotNumber,
        ),
        (without(&mod_json(), "created_timestamp"), ModDataError::MissingCreatedTimestamp),
        (
            with(&mod_json(), "created_timestamp", Json::Null),
            ModDataError::CreatedTimestampNotNumber,
        ),
    ];
    for (json, error) in cases {
        assert_eq!(extract(json), Err(error));
    }
}

fn file_node(name: &str) -> Json {
    object(vec![("type", text("file")), ("name", text(name))])
}

fn directory(name: &str, children: Vec<Json>) -> Json {
    object(vec![
        ("type", text("directory")),
        ("name", text(name)),
        ("children", Json::Array(children)),
    ])
}

#[test]
fn plugin_names_end_in_a_plugin_extension() {
    assert!(is_plugin_name("MyMod.esp"));
    assert!(is_plugin_name("Skyrim.esm"));
    assert!(is_plugin_name("light.esl"));
    assert!(is_plugin_name(".esp"));
    assert!(!is_plugin_name("MyMod.ESP"));
    assert!(!is_plugin_name("MyMod.esp.bak"));
    assert!(!is_plugin_name("esp"));
    assert!(!is_plugin_name(""));
    assert!(!is_plugin_name("readme.txt"));
}

#[test]
fn has_plugin_finds_a_plugin_anywhere_in_the_tree() {
    let tree = directory(
        "Data",
        vec![
            file_node("readme.txt"),
            directory("meshes", vec![file_node("a.nif")]),
            directory("optional", vec![directory("deep", vec![file_node("Patch.esl")])]),
        ],
    );
    assert_eq!(has_plugin(&tree), Ok(true));
}

#[test]
fn has_plugin_answers_no_for_a_tree_without_plugins() {
    let tree = directory("Data", vec![file_node("readme.txt"), directory("empty", vec![])]);
    assert_eq!(has_plugin(&tree), Ok(false));
    assert_eq!(has_plugin(&file_node("a.txt")), Ok(false));
    assert_eq!(has_plugin(&object(vec![("type", text("directory"))])), Ok(false));
}

#[test]
fn has_plugin_does_not_take_a_directory_for_a_plugin() {
    let tree = directory("Odd.esp", vec![file_node("readme.txt")]);
    assert_eq!(has_plugin(&tree), Ok(false));
}

#[test]
fn has_plugin_reports_each_fault() {
    assert_eq!(has_plugin(&object(vec![])), Err(MetadataError::MissingType));
    assert_eq!(has_plugin(&Json::Null), Err(MetadataError::MissingType));
    assert_eq!(has_plugin(&object(vec![("type", Json::Int(1))])), Err(MetadataError::TypeNotString));
    assert_eq!(has_plugin(&object(vec![("type", text("file"))])), Err(MetadataError::MissingName));
    assert_eq!(
        has_plugin(&object(vec![("type", text("file")), ("name", Json::Null)])),
        Err(MetadataError::NameNotString)
    );
    assert_eq!(
        has_plugin(&object(vec![("type", text("directory")), ("children", text("x"))])),
        Err(MetadataError::ChildrenNotArray)
    );
}

#[test]
fn has_plugin_stops_at_the_first_plugin_or_fault() {
    let bad = object(vec![]);
    let found_first = directory("d", vec![file_node("a.esp"), bad]);
    assert_eq!(has_plugin(&found_first), Ok(true));
    let bad = object(vec![]);
    let fault_first = directory("d", vec![bad, file_node("a.esp")]);
    assert_eq!(has_plugin(&fault_first), Err(MetadataError::MissingType));
}

#[test]
fn contains_plugin_looks_only_below_the_root() {
    let root = object(vec![("children", Json::Array(vec![file_node("a.esm")]))]);
    assert_eq!(contains_plugin(&root), Ok(true));
    let root = object(vec![("children", Json::Array(vec![file_node("a.txt")]))]);
    assert_eq!(contains_plugin(&root), Ok(false));
    assert_eq!(contains_plugin(&object(vec![])), Ok(false));
    assert_eq!(contains_plugin(&file_node("a.esp")), Ok(false));
    assert_eq!(
        contains_plugin(&object(vec![("children", Json::Null)])),
        Err(MetadataError::ChildrenNotArray)
    );
}

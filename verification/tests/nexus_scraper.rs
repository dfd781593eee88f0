use modmapper::nexus_scraper::{
    convert_mods_to_scraped, has_next_page, page_offset, response_data, translation_filter_op,
    GraphQLError, GraphQLResponse, ListingError, Mod, ModCategory, ScrapeError, ScrapedMod,
    Uploader, PAGE_SIZE,
};
use modmapper::time::Date;

fn api_mod() -> Mod {
    Mod {
        mod_id: 12604,
        name: "SkyUI".to_string(),
        summary: Some("Elegant, PC-friendly interface mod.".to_string()),
        downloads: 1,
        endorsements: 2,
        created_at: "2011-12-17T22:17:03Z".to_string(),
        updated_at: "2025-05-30T15:29:50Z".to_string(),
        mod_category: Some(ModCategory { category_id: 42, name: "User Interface".to_string() }),
        uploader: Uploader { member_id: 28794, name: "schlangster".to_string() },
        thumbnail_url: Some("https://example.test/skyui.png".to_string()),
    }
}

fn scraped() -> ScrapedMod {
    ScrapedMod {
        nexus_mod_id: 12604,
        name: "SkyUI".to_string(),
        category_name: Some("User Interface".to_string()),
        category_id: Some(42),
        author_name: "schlangster".to_string(),
        author_id: 28794,
        desc: Some("Elegant, PC-friendly interface mod.".to_string()),
        thumbnail_link: Some("https://example.test/skyui.png".to_string()),
        // 2025-05-30 and 2011-12-17
        last_update_at: Date { days_from_ce: 739_401 },
        first_upload_at: Date { days_from_ce: 734_488 },
    }
}

#[test]
fn page_size_is_twenty() {
    assert_eq!(PAGE_SIZE, 20);
}

#[test]
fn from_api_mod_keeps_the_fields_and_the_days() {
    assert_eq!(ScrapedMod::from_api_mod(&api_mod()), Ok(scraped()));
}

#[test]
fn with_dates_takes_the_days_as_given() {
    let last = Date { days_from_ce: 1 };
    let first = Date { days_from_ce: -7 };
    let mut expected = scraped();
    expected.last_update_at = last;
    expected.first_upload_at = first;
    assert_eq!(ScrapedMod::with_dates(&api_mod(), last, first), expected);
}

#[test]
fn from_api_mod_without_category_summary_or_thumbnail() {
    let mut m = api_mod();
    m.mod_category = None;
    m.summary = None;
    m.thumbnail_url = None;
    let mut expected = scraped();
    expected.category_name = None;
    expected.category_id = None;
    expected.desc = None;
    expected.thumbnail_link = None;
    assert_eq!(ScrapedMod::from_api_mod(&m), Ok(expected));
}

#[test]
fn from_api_mod_takes_the_day_in_utc() {
    let mut m = api_mod();
    m.updated_at = "2025-05-30T23:30:00-02:00".to_string();
    m.created_at = "1970-01-01T00:30:00+01:00".to_string();
    let got = ScrapedMod::from_api_mod(&m).unwrap();
    assert_eq!(got.last_update_at, Date { days_from_ce: 739_402 });
    assert_eq!(got.first_upload_at, Date { days_from_ce: 719_162 });
}

#[test]
fn from_api_mod_reports_the_moment_that_is_wrong() {
    let mut m = api_mod();
    m.updated_at = "yesterday".to_string();
    assert_eq!(ScrapedMod::from_api_mod(&m), Err(ScrapeError::InvalidUpdatedAt));
    m.created_at = "2011-12-17".to_string();
    assert_eq!(ScrapedMod::from_api_mod(&m), Err(ScrapeError::InvalidUpdatedAt));
    m.updated_at = "2025-05-30T15:29:50Z".to_string();
    assert_eq!(ScrapedMod::from_api_mod(&m), Err(ScrapeError::InvalidCreatedAt));
}

#[test]
fn the_epoch_is_day_719163() {
    let mut m = api_mod();
    m.updated_at = "1970-01-01T00:00:00Z".to_string();
    let got = ScrapedMod::from_api_mod(&m).unwrap();
    assert_eq!(got.last_update_at, Date { days_from_ce: 719_163 });
    assert_eq!(got.last_update_at.at_midnight().seconds, 0);
}

#[test]
fn convert_keeps_the_order_of_the_page() {
    let mut second = api_mod();
    second.mod_id = 2;
    let mut expected_second = scraped();
    expected_second.nexus_mod_id = 2;
    assert_eq!(
        convert_mods_to_scraped(&vec![api_mod(), second]),
        Ok(vec![scraped(), expected_second])
    );
    assert_eq!(convert_mods_to_scraped(&vec![]), Ok(vec![]));
}

#[test]
fn convert_fails_with_the_first_fault() {
    let mut bad_created = api_mod();
    bad_created.created_at = String::new();
    let mut bad_updated = api_mod();
    bad_updated.updated_at = String::new();
    assert_eq!(
        convert_mods_to_scraped(&vec![api_mod(), bad_created, bad_updated]),
        Err(ScrapeError::InvalidCreatedAt)
    );
}

#[test]
fn has_next_page_compares_the_end_of_the_page_with_the_count() {
    assert!(has_next_page(41, 0, 20));
    assert!(has_next_page(41, 20, 20));
    assert!(!has_next_page(41, 40, 1));
    assert!(!has_next_page(40, 20, 20));
    assert!(has_next_page(21, 0, 20));
    assert!(!has_next_page(20, 0, 20));
    assert!(!has_next_page(0, 0, 0));
    assert!(has_next_page(1, 0, 0));
    assert!(!has_next_page(-5, 0, 0));
    assert!(!has_next_page(i32::MAX, usize::MAX, 1));
    assert!(has_next_page(i32::MAX, i32::MAX as usize - 1, 0));
    assert!(!has_next_page(i32::MAX, i32::MAX as usize - 1, 1));
}

#[test]
fn page_offset_is_page_times_page_size() {
    assert_eq!(page_offset(0), Some(0));
    assert_eq!(page_offset(1), Some(20));
    assert_eq!(page_offset(7), Some(140));
    assert_eq!(page_offset(usize::MAX / 20), Some(usize::MAX / 20 * 20));
    assert_eq!(page_offset(usize::MAX / 20 + 1), None);
}

#[test]
fn response_data_refuses_errors_and_missing_data() {
    let errors = Some(vec![GraphQLError { message: "boom".to_string() }]);
    let r = response_data(GraphQLResponse { data: Some(1), errors });
    assert_eq!(r, Err(ListingError::Errors));
    let r = response_data(GraphQLResponse::<i32> { data: None, errors: Some(vec![]) });
    assert_eq!(r, Err(ListingError::Errors));
    let r = response_data(GraphQLResponse::<i32> { data: None, errors: None });
    assert_eq!(r, Err(ListingError::NoData));
    let r = response_data(GraphQLResponse { data: Some(5), errors: None });
    assert_eq!(r, Ok(5));
}

#[test]
fn translation_filter_matches_or_excludes_the_tag() {
    assert_eq!(translation_filter_op(true), "EQUALS");
    assert_eq!(translation_filter_op(false), "NOT_EQUALS");
}

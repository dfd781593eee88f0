//! The listing of mods: what one page of the upstream listing holds, and
//! whether another page follows it.

use vstd::prelude::*;
use crate::json::Json;
use crate::time::Date;

verus! {

/// The number of mods on a full page of the listing.
pub const PAGE_SIZE: usize = 20;

/// The answer to a GraphQL request: its data, or the errors in its place.
#[derive(Debug)]
pub struct GraphQLResponse<T> {
    pub data: Option<T>,
    pub errors: Option<Vec<GraphQLError>>,
}

/// One error of a GraphQL answer.
#[derive(Debug, Clone, PartialEq)]
pub struct GraphQLError {
    pub message: String,
}

/// The data of an answer to the listing query.
#[derive(Debug)]
pub struct ModsResponse {
    pub mods: ModsData,
}

/// One page of the listing, with the number of mods in the whole listing.
#[derive(Debug)]
pub struct ModsData {
    pub facets_data: Option<Json>,
    pub nodes: Vec<Mod>,
    pub total_count: i32,
}

/// A mod as the listing describes it.
#[derive(Debug, Clone, PartialEq)]
pub struct Mod {
    pub mod_id: i32,
    pub name: String,
    pub summary: Option<String>,
    pub downloads: i32,
    pub endorsements: i32,
    /// The moment of the first upload, in RFC 3339 form.
    pub created_at: String,
    /// The moment of the last update, in RFC 3339 form.
    pub updated_at: String,
    pub mod_category: Option<ModCategory>,
    pub uploader: Uploader,
    pub thumbnail_url: Option<String>,
}

/// The category of a mod.
#[derive(Debug, Clone, PartialEq)]
pub struct ModCategory {
    pub category_id: i32,
    pub name: String,
}

/// The member who uploaded a mod.
#[derive(Debug, Clone, PartialEq)]
pub struct Uploader {
    pub member_id: i32,
    pub name: String,
}

/// What the crawler keeps of a listed mod.
#[derive(Debug, Clone, PartialEq)]
pub struct ScrapedMod {
    pub nexus_mod_id: i32,
    pub name: String,
    pub category_name: Option<String>,
    pub category_id: Option<i32>,
    pub author_name: String,
    pub author_id: i32,
    pub desc: Option<String>,
    pub thumbnail_link: Option<String>,
    pub last_update_at: Date,
    pub first_upload_at: Date,
}

/// Why a listed mod could not be kept.
#[derive(Debug, Clone, Copy, PartialEq, Eq, Structural)]
pub enum ScrapeError {
    /// The moment of the last update is not in RFC 3339 form.
    InvalidUpdatedAt,
    /// The moment of the first upload is not in RFC 3339 form.
    InvalidCreatedAt,
}

/// What is wrong with an answer to the listing query.
#[derive(Debug, Clone, Copy, PartialEq, Eq, Structural)]
pub enum ListingError {
    /// The answer carries errors.
    Errors,
    /// The answer carries neither errors nor data.
    NoData,
}

/// The day on which a moment in RFC 3339 form falls in UTC, counted in days
/// from the first day of year 1, or `None` where the text is not in that
/// form: the date of the result of `DateTime::parse_from_rfc3339` of the
/// `chrono` crate.
pub uninterp spec fn rfc3339_utc_day(text: Seq<char>) -> Option<i32>;

/// Calls `chrono::DateTime::parse_from_rfc3339` and hands out the day in
/// UTC of the moment it found. Trusted: the result is the named function of
/// the text.
#[verifier::external_body]
fn parse_rfc3339_day(text: &str) -> (r: Option<i32>)
    ensures
        r == rfc3339_utc_day(text@),
{
    match chrono::DateTime::parse_from_rfc3339(text) {
        Ok(t) => Some(chrono::Datelike::num_days_from_ce(&t.naive_utc().date())),
        Err(_) => None,
    }
}

/// The category name of a listed mod.
pub open spec fn category_name_of(category: Option<ModCategory>) -> Option<String> {
    match category {
        Some(c) => Some(c.name),
        None => None,
    }
}

/// The category id of a listed mod.
pub open spec fn category_id_of(category: Option<ModCategory>) -> Option<i32> {
    match category {
        Some(c) => Some(c.category_id),
        None => None,
    }
}

/// What is kept of a listed mod whose two moments fall on the given days.
pub open spec fn scraped_of(api_mod: Mod, last_update_at: Date, first_upload_at: Date)
    -> ScrapedMod {
    ScrapedMod {
        nexus_mod_id: api_mod.mod_id,
        name: api_mod.name,
        category_name: category_name_of(api_mod.mod_category),
        category_id: category_id_of(api_mod.mod_category),
        author_name: api_mod.uploader.name,
        author_id: api_mod.uploader.member_id,
        desc: api_mod.summary,
        thumbnail_link: api_mod.thumbnail_url,
        last_update_at,
        first_upload_at,
    }
}

/// What is kept of a listed mod, or why it cannot be kept: the moment of
/// its last update is read first, then that of its first upload.
pub open spec fn from_api_mod_spec(api_mod: Mod) -> Result<ScrapedMod, ScrapeError> {
    match rfc3339_utc_day(api_mod.updated_at@) {
        None => Err(ScrapeError::InvalidUpdatedAt),
        Some(updated) => match rfc3339_utc_day(api_mod.created_at@) {
            None => Err(ScrapeError::InvalidCreatedAt),
            Some(created) => Ok(
                scraped_of(
                    api_mod,
                    Date { days_from_ce: updated },
                    Date { days_from_ce: created },
                ),
            ),
        },
    }
}

/// Whether the listed mod is kept as exactly the given value.
pub open spec fn scrapes_as(api_mod: Mod, scraped: ScrapedMod) -> bool {
    from_api_mod_spec(api_mod) == Ok::<ScrapedMod, ScrapeError>(scraped)
}

/// Whether the listed mod cannot be kept, for the given reason.
pub open spec fn scrape_fails_with(api_mod: Mod, e: ScrapeError) -> bool {
    from_api_mod_spec(api_mod) == Err::<ScrapedMod, ScrapeError>(e)
}

/// Whether `r` is what keeping the listed mods in order gives: all of them
/// where each can be kept, else the reason of the first that cannot.
pub open spec fn converts_to(api_mods: Seq<Mod>, r: Result<Vec<ScrapedMod>, ScrapeError>) -> bool {
    match r {
        Ok(scraped) => scraped@.len() == api_mods.len() && forall|i: int|
            0 <= i < api_mods.len() ==> scrapes_as(#[trigger] api_mods[i], scraped@[i]),
        Err(e) => exists|i: int|
            0 <= i < api_mods.len() && scrape_fails_with(#[trigger] api_mods[i], e) && forall|
                j: int,
            | 0 <= j < i ==> from_api_mod_spec(#[trigger] api_mods[j]) is Ok,
    }
}

/// Whether another page follows the one that starts at `offset` and holds
/// `len` mods, in a listing of `total_count` mods.
pub open spec fn has_next_page_spec(total_count: i32, offset: usize, len: usize) -> bool {
    offset + len < total_count
}

/// The position in the listing at which a page starts; pages are counted
/// from zero.
pub open spec fn page_offset_spec(page: usize) -> Option<usize> {
    if page * PAGE_SIZE <= usize::MAX {
        Some((page * PAGE_SIZE) as usize)
    } else {
        None
    }
}

impl ScrapedMod {
    /// What is kept of a listed mod, given the days of its two moments.
    pub fn with_dates(api_mod: &Mod, last_update_at: Date, first_upload_at: Date) -> (r:
        ScrapedMod)
        ensures
            r == scraped_of(*api_mod, last_update_at, first_upload_at),
    {
        let (category_name, category_id) = match &api_mod.mod_category {
            Some(c) => (Some(c.name.clone()), Some(c.category_id)),
            None => (None, None),
        };
        ScrapedMod {
            nexus_mod_id: api_mod.mod_id,
            name: api_mod.name.clone(),
            category_name,
            category_id,
            author_name: api_mod.uploader.name.clone(),
            author_id: api_mod.uploader.member_id,
            desc: api_mod.summary.clone(),
            thumbnail_link: api_mod.thumbnail_url.clone(),
            last_update_at,
            first_upload_at,
        }
    }

    /// What is kept of a listed mod: its fields, with the two moments cut
    /// down to their days in UTC.
    pub fn from_api_mod(api_mod: &Mod) -> (r: Result<ScrapedMod, ScrapeError>)
        ensures
            r == from_api_mod_spec(*api_mod),
    {
        let updated: i32 = match parse_rfc3339_day(api_mod.updated_at.as_str()) {
            Some(day) => day,
            None => {
                return Err(ScrapeError::InvalidUpdatedAt);
            },
        };
        let created: i32 = match parse_rfc3339_day(api_mod.created_at.as_str()) {
            Some(day) => day,
            None => {
                return Err(ScrapeError::InvalidCreatedAt);
            },
        };
        Ok(
            ScrapedMod::with_dates(
                api_mod,
                Date { days_from_ce: updated },
                Date { days_from_ce: created },
            ),
        )
    }
}

/// Keeps every mod of a page, in the order of the page.
pub fn convert_mods_to_scraped(api_mods: &Vec<Mod>) -> (r: Result<Vec<ScrapedMod>, ScrapeError>)
    ensures
        converts_to(api_mods@, r),
{
    let mut scraped: Vec<ScrapedMod> = Vec::new();
    let mut i: usize = 0;
    while i < api_mods.len()
        invariant
            i <= api_mods.len(),
            scraped@.len() == i,
            forall|k: int| 0 <= k < i ==> scrapes_as(#[trigger] api_mods@[k], scraped@[k]),
            forall|k: int| 0 <= k < i ==> from_api_mod_spec(#[trigger] api_mods@[k]) is Ok,
        decreases api_mods.len() - i,
    {
        match ScrapedMod::from_api_mod(&api_mods[i]) {
            Ok(m) => {
                scraped.push(m);
            },
            Err(e) => {
                assert(scrape_fails_with(api_mods@[i as int], e));
                return Err(e);
            },
        }
        i += 1;
    }
    Ok(scraped)
}

/// Whether the listing goes on after a page: it does while the mods up to
/// and including the page are fewer than the listing counts.
pub fn has_next_page(total_count: i32, offset: usize, len: usize) -> (r: bool)
    ensures
        r == has_next_page_spec(total_count, offset, len),
{
    if total_count <= 0 {
        return false;
    }
    match offset.checked_add(len) {
        Some(end) => (end as u128) < (total_count as u128),
        None => false,
    }
}

/// The position at which a page of the listing starts, or `None` where the
/// position is beyond what the machine can count.
pub fn page_offset(page: usize) -> (r: Option<usize>)
    ensures
        r == page_offset_spec(page),
{
    page.checked_mul(PAGE_SIZE)
}

/// How the listing query matches the tag `Translation`.
pub open spec fn translation_filter_op_spec(include_translations: bool) -> Seq<char> {
    if include_translations {
        "EQUALS"@
    } else {
        "NOT_EQUALS"@
    }
}

/// The operator with which the listing query matches the tag
/// `Translation`: a pass over the translations asks for the mods that
/// carry the tag, a pass over the other mods for those that do not.
pub fn translation_filter_op(include_translations: bool) -> (r: &'static str)
    ensures
        r@ == translation_filter_op_spec(include_translations),
{
    if include_translations {
        "EQUALS"
    } else {
        "NOT_EQUALS"
    }
}

/// The data of an answer to a query: an answer that carries errors is
/// refused, whatever else it carries, and so is one without data.
pub fn response_data<T>(response: GraphQLResponse<T>) -> (r: Result<T, ListingError>)
    ensures
        response.errors is Some ==> r is Err && r->Err_0 == ListingError::Errors,
        response.errors is None && response.data is None ==> r is Err && r->Err_0
            == ListingError::NoData,
        response.errors is None && response.data is Some ==> r is Ok && r->Ok_0
            == response.data->0,
{
    if response.errors.is_some() {
        return Err(ListingError::Errors);
    }
    match response.data {
        Some(data) => Ok(data),
        None => Err(ListingError::NoData),
    }
}

} // verus!

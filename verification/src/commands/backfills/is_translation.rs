//! Marking the mods that the listing holds to be translations.

use vstd::prelude::*;
use crate::nexus_scraper::{ScrapedMod, PAGE_SIZE};

verus! {

/// The upstream ids of the mods of a page.
pub open spec fn ids_of_page(scraped: Seq<ScrapedMod>) -> Seq<i32> {
    scraped.map_values(|m: ScrapedMod| m.nexus_mod_id)
}

/// The upstream ids of the mods of a page of translations, in the order
/// of the page: the mods to mark.
pub fn translation_ids(scraped: &Vec<ScrapedMod>) -> (r: Vec<i32>)
    ensures
        r@ == ids_of_page(scraped@),
{
    let mut ids: Vec<i32> = Vec::new();
    let mut i: usize = 0;
    while i < scraped.len()
        invariant
            i <= scraped.len(),
            ids@ =~= ids_of_page(scraped@.subrange(0, i as int)),
        decreases scraped.len() - i,
    {
        ids.push(scraped[i].nexus_mod_id);
        i += 1;
    }
    assert(scraped@.subrange(0, scraped.len() as int) =~= scraped@);
    ids
}

/// Whether a page of the given length is a full one, after which another
/// page is asked for.
pub fn is_full_page(len: usize) -> (r: bool)
    ensures
        r == (len == PAGE_SIZE),
{
    len == PAGE_SIZE
}

} // verus!

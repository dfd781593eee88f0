//! Games: the sites of the upstream catalogue that are crawled.

use vstd::prelude::*;
use crate::text::str_eq;
use crate::time::Timestamp;

verus! {

/// A stored game. No two stored games share upstream id and name.
#[derive(Debug, Clone, PartialEq)]
pub struct Game {
    pub id: i32,
    pub name: String,
    pub nexus_game_id: i32,
    pub updated_at: Timestamp,
    pub created_at: Timestamp,
}

/// The upstream id of Skyrim Special Edition.
pub const GAME_ID: i32 = 1704;

/// The upstream id of the game of a domain name, for the game that is
/// known: `skyrimspecialedition`.
pub open spec fn game_id_of(name: Seq<char>) -> Option<i32> {
    if name == "skyrimspecialedition"@ {
        Some(GAME_ID)
    } else {
        None
    }
}

/// The upstream id of a game, by its domain name.
pub fn get_game_id(name: &str) -> (r: Option<i32>)
    ensures
        r == game_id_of(name@),
{
    if str_eq(name, "skyrimspecialedition") {
        Some(GAME_ID)
    } else {
        None
    }
}

} // verus!

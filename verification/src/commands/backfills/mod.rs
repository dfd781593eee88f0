//! One-off repairs of what is stored.

pub mod deduplicate_interior_cells;
pub mod is_base_game;
pub mod is_translation;

//! The commands of the crawler, as far as they decide and compute.

pub mod backfills;
pub mod dump_cell_edit_counts_over_time;
pub mod update;

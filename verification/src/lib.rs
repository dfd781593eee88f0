//! Verified core of a crawler that maps game plugins to the worlds and cells
//! they edit: record identifiers, response decoding, pacing, archive
//! strategy, and the row sets handed to the relational store.

pub mod commands;
pub mod extractors;
pub mod form_id;
pub mod json;
pub mod lemmas;
pub mod models;
pub mod nexus_api;
pub mod nexus_scraper;
pub mod plugin_processor;
pub mod radix;
pub mod rate_limit;
pub mod store;
pub mod store_laws;
pub mod text;
pub mod time;

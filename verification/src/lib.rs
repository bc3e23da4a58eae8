//! A journal of small complaints ("papercuts") filed by agents and humans.
//!
//! The library holds the journal's logic: the records and their ids, the
//! cleaning of a complaint's text, the reading and healing of the journal's
//! lines, the matching of ids, the listing and the health report. Reading
//! files, the clock, the environment and the command line belong to the
//! program around it.

pub mod cli;
pub mod commands;
pub mod context;
pub mod error;
pub mod journal;
pub mod listing;
pub mod noise;
pub mod output;
pub mod query;
pub mod record;
pub mod schema;
pub mod text;
pub mod timestamp;


//! Stores and observation rules of a readahead daemon, with verified contracts.

pub mod bytes;
pub mod config;
pub mod domain;
pub mod fx;
pub mod keyed;
pub mod lists;
pub mod observation;
pub mod paths;
pub mod stores;
pub mod text;

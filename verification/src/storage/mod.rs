//! The layout of the market and synthetic stores: keys, records, and what is read off listings of
//! them.
//!
//! A store is an ordered table from byte keys to values. What is computed here are the keys that rows
//! are written under, and the answers to queries, given the rows that the table lists in ascending
//! order of their keys.

pub mod cache;
pub mod coverage;
pub mod key;
pub mod provenance;
pub mod records;
pub mod schema;
pub mod table;

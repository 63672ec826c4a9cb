//! Logic of a disk-cleaning and disk-usage analysis tool: path
//! classification, top-N large-file selection, snapshot diffs, history and
//! configuration stores, and the command lines the tool hands to the system.
use vstd::prelude::*;

pub mod text;
pub mod models;
pub mod classify;
pub mod order;
pub mod sort;
pub mod lexsort;
pub mod topn;
pub mod diff;
pub mod delete;
pub mod cleaner;
pub mod cli;
pub mod tasks;
pub mod clock;
pub mod stores;
pub mod walk;
pub mod drive;
pub mod snapstore;
pub mod paths;
pub mod schedule;

verus! {

} // verus!

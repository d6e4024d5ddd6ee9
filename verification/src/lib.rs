//! Verified core of a personal journal: an entry store that keeps a
//! relational index and a directory of one text file per entry mutually
//! consistent across create, rename, delete, tag and access-update
//! operations, and that derives ordering and numbering from the index.

pub mod database;
pub mod dates;
pub mod errors;
pub mod file_operations;
pub mod index;
pub mod numerals;
pub mod sorting;

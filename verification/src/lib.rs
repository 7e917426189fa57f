//! Canonical tags and destination paths for music files.
//!
//! The library rewrites a track's title, artist and album into a canonical
//! form (featured artists live in the title, cosmetic punctuation is plain
//! ASCII) and derives a file-system-safe destination path from a rendered
//! path template.  Every function is stated over sequences of characters and
//! proved against that statement.

pub mod batch;
pub mod config;
pub mod feat;
pub mod fixers;
pub mod rename;
pub mod taglib;
pub mod text;

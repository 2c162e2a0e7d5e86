//! Records changelog entries as individual files and aggregates them into a
//! grouped changelog document.
//!
//! The library covers the pure core of that workflow: rendering one entry to
//! its canonical single-line text, synthesizing the deterministic file name
//! an entry is stored under, deciding whether a write may proceed against a
//! set of existing file names, parsing an entry file's content back into a
//! (category, message) pair, grouping parsed entries into a report, and
//! rendering the report as one document. File-system access stays with the
//! caller, which hands the library plain strings.

pub mod aggregate;
pub mod entry;
pub mod laws;
pub mod strutil;

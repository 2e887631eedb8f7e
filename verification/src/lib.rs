//! Discovery of the block devices and file systems present on a machine,
//! exposed as a queryable, typed catalog.
//!
//! The library turns the textual output of a system inventory tool (one
//! `KEY="value"`-field line per device) into validated records: it parses
//! each line, propagates the transport attribute from a parent device to the
//! sub-devices that follow it, drops entries that cannot serve as mount
//! targets, and offers indexed lookups over the result.

pub mod bootloader;
pub mod catalog;
pub mod parser;
pub mod record;

pub use catalog::FileSystemsList;
pub use catalog::FileSystemsReader;
pub use record::FileSystem;

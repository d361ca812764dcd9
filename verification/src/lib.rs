//! Resolution of the direct dependencies of a short list of Python tools.
//!
//! For each tool of an input list, the package index is asked for the
//! requirements of the tool's latest release. Each requirement string is
//! reduced to a package name and a version, and the result is laid out as a
//! text manifest with one section per tool.
//!
//! This crate holds the deterministic part of that job, with a contract on
//! every function:
//!
//! - [`requirement`] reads one requirement string and decides which
//!   requirements are kept;
//! - [`registry`] names the address of a package, judges the status of an
//!   answer and reads the dependencies out of a record;
//! - [`resolved`] keeps what was found, tool by tool;
//! - [`manifest`] renders the manifest and reads one back, and [`roundtrip`]
//!   proves that reading a rendered manifest gives back what it lists;
//! - [`locate`] decides each step of the upward search for the input file;
//! - [`run`] drives one run over the list: it says which package to fetch
//!   next and what to write at the end;
//! - [`text`] and [`tools`] hold the character-level helpers and the input
//!   types.
//!
//! Network and file access are left to the caller. Positions in strings
//! count characters throughout.

pub mod locate;
pub mod manifest;
pub mod registry;
pub mod requirement;
pub mod resolved;
pub mod roundtrip;
pub mod run;
pub mod text;
pub mod tools;

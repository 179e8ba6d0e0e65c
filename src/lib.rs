//! Resolve pacman package names into the set of packages to fetch from a list of
//! repositories, and decide how repository databases and package files are brought up to date.
//!
//! - `parse` and `version`: package versions, `depends` and `provides` declarations.
//! - `desc`: the package descriptions of an extracted repository database.
//! - `index`: packages of several repositories indexed by name, first repository first.
//! - `resolve`: the dependency resolver; `laws` states what follows from its contract.
//! - `repository`, `sync`, `checksum`, `input`: repository URLs, conditional database
//!   fetches, verification of downloaded files, and list files.

pub mod checksum;
pub mod desc;
pub mod index;
pub mod input;
pub mod laws;
pub mod package;
pub mod parse;
pub mod repository;
pub mod resolve;
pub mod sync;
pub mod text;
pub mod version;

//! Content-addressed mirroring of a Debian-style package repository.
//!
//! - `index`: parses `Packages` index text into package records.
//! - `lists`: reads the mirror list and the index-file list.
//! - `config`: makes those two lists from a `sources.list` descriptor.
//! - `fetch`: decides, record by record, how artifacts are downloaded,
//!   verified against their SHA-256 hash and published into the store.
//! - `layout`: the store, staging and recycle directories and mirror URLs.
//! - `linker`: the directories, `pool` links and blob links of the dist tree.
//! - `reclaim`: moves referenced blobs back from a previous store generation.
//! - `work`: shares a list between workers through one cursor.
//! - `text`: the character-level helpers under all of these.

pub mod config;
pub mod fetch;
pub mod index;
pub mod layout;
pub mod linker;
pub mod lists;
pub mod reclaim;
pub mod text;
pub mod work;

//! Music-library indexer and catalog query engine.
//!
//! The library crawls a snapshot of one or more mounted collection roots,
//! reconciles the discovered state into a relational catalog held in memory,
//! and answers read queries (browse, flatten, random/recent albums, search,
//! single-song lookup) through a virtual-path namespace.

pub mod art;
pub mod builder;
pub mod commands;
pub mod db;
pub mod laws;
pub mod queries;
pub mod rows;
pub mod snapshot;
pub mod sorting;
pub mod strings;
pub mod table;
pub mod update;
pub mod utils;
pub mod vfs;

pub use commands::{Command, LoopAction, coalesce, sleep_duration};
pub use db::Db;
pub use queries::{browse, flatten, get_random_albums, get_recent_albums, search, get_song,
    virtualize_song};
pub use rows::{Song, Directory, CollectionFile, MiscSettings, SongTags};
pub use snapshot::{DirSnapshot, EntrySnapshot};
pub use update::{update, clean, populate};
pub use utils::{AudioFormat, get_audio_format, is_image};
pub use vfs::{Vfs, MountPoint};

use vstd::prelude::*;

verus! {

/// Every failure the library reports to its callers.
#[derive(Clone, Copy, PartialEq, Eq, Structural, Debug)]
pub enum Error {
    /// A virtual path's first component names no configured mount.
    UnknownMount,
    /// A real path lies under no configured mount root.
    NotUnderMount,
    /// The catalog holds no settings row, so a scan cannot start.
    MissingSettings,
    /// The configured album-art pattern is not a valid regular expression.
    PatternInvalid,
    /// A directory in the scanned tree carries no usable timestamp.
    MissingTimestamp,
    /// No song is catalogued at the requested path.
    SongNotFound,
    /// The song found at the requested path has no virtual mapping.
    MissingVfsMapping,
}

} // verus!

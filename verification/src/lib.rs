//! Indexing of a music directory tree and export of playlists for a portable
//! player.
//!
//! The crate holds the rules of the indexer and leaves reading and writing to
//! its caller, which hands in what it found on disk or on the network:
//!
//! - [`paths`]: how a host path falls into components.
//! - [`scan`]: which files are audio files, and the track that is recorded
//!   for one, from its tag block and from its place in the directory tree.
//! - [`cache`]: the tag fields remembered for a file until it changes.
//! - [`store`]: the rows that a saved library consists of.
//! - [`playlist`]: device paths and the text of a playlist file.
//! - [`cover`]: the lookups of cover art on the network services.
//! - [`browser`]: the lists and counts that a viewer of the library shows,
//!   and its playlists.
//! - [`music`]: the records that all of these work on.
//! - [`text`]: helpers on characters and strings.

pub mod browser;
pub mod cache;
pub mod cover;
pub mod music;
pub mod paths;
pub mod playlist;
pub mod scan;
pub mod store;
pub mod text;

//! Error taxonomy of the core.

use vstd::prelude::*;

verus! {

/// Failure while persisting or restoring the transition store.
///
/// `Io` is reported by the caller that actually touches the file; the
/// decoder itself only ever reports `Malformed`.
#[derive(Clone, Copy, Debug, PartialEq, Eq, Structural)]
pub enum StorageError {
    /// Reading or writing the backing file failed.
    Io,
    /// The persisted text does not describe a valid edge list.
    Malformed,
}

/// Failure while choosing the next song.
#[derive(Clone, Copy, Debug, PartialEq, Eq, Structural)]
pub enum SelectionError {
    /// Neither the chain nor the library offers anything playable.
    EmptyLibrary,
}

/// Failure of a session-level operation.
#[derive(Clone, Copy, Debug, PartialEq, Eq, Structural)]
pub enum Error {
    /// The browser cursor does not rest on a playable song.
    NoSongSelected,
    /// No song is currently playing.
    NothingPlaying,
    /// No song was played before the current one.
    NoPreviousSong,
    /// Nothing playable exists at all.
    EmptyLibrary,
    /// Persistence failed.
    Storage(StorageError),
}

} // verus!

//! A music-playing core that learns which song to play next.
//!
//! Songs are nodes of a directed graph; an edge `(from, to)` carries a
//! non-negative integer weight recording how strongly playing `to` right
//! after `from` has been reinforced.  The crate provides the weighted
//! transition store with its persistence format, the pure weight-update
//! policy for feedback events, the weighted-random selector, and the
//! session handle that ties them to a playback lifecycle.  Terminal
//! drawing, file reading and player control stay outside: callers hand
//! in plain values and perform the actions the handle decides on.

pub mod chain;
pub mod codec;
pub mod config;
pub mod error;
pub mod handle;
pub mod markov;
pub mod policy;
pub mod select;
pub mod session;

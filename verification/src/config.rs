//! Process configuration: where the store and the control socket live,
//! and how to reach the player daemon.  Reading the configuration file
//! and the command line happens outside the core; the core only holds
//! the resulting plain values.

use vstd::prelude::*;
use vstd::string::StringExecFns;

verus! {

/// Paths used when running as a long-lived daemon, relative to the
/// user's home directory.
#[derive(Clone, Debug)]
pub struct DaemonConfig {
    /// Where the transition store is persisted.
    pub storage_file: String,
    /// The control socket for remote commands.
    pub socket: String,
}

impl Default for DaemonConfig {
    /// The conventional locations under `.mpd`.
    fn default() -> (c: Self)
        ensures
            c.storage_file@ == ".mpd/x-markov-music.db"@,
            c.socket@ == ".mpd/x-markov-music.sock"@,
    {
        DaemonConfig {
            storage_file: String::from_str(".mpd/x-markov-music.db"),
            socket: String::from_str(".mpd/x-markov-music.sock"),
        }
    }
}

/// How to reach the music player daemon.
#[derive(Clone, Debug)]
pub struct MpdConfig {
    /// Host name of the daemon.
    pub host: String,
    /// Port of the daemon.
    pub port: u16,
    /// Password, when the daemon requires one.
    pub password: Option<String>,
}

impl Default for MpdConfig {
    /// The daemon's conventional local address.
    fn default() -> (c: Self)
        ensures
            c.host@ == "localhost"@,
            c.port == 6600,
            c.password is None,
    {
        MpdConfig { host: String::from_str("localhost"), port: 6600, password: None }
    }
}

/// The whole configuration surface the core consumes.
#[derive(Clone, Debug)]
pub struct Config {
    /// Daemon paths.
    pub daemon: DaemonConfig,
    /// Player daemon address.
    pub mpd: MpdConfig,
}

impl Default for Config {
    /// Both sections at their defaults.
    fn default() -> (c: Self)
        ensures
            c.daemon.storage_file@ == ".mpd/x-markov-music.db"@,
            c.daemon.socket@ == ".mpd/x-markov-music.sock"@,
            c.mpd.host@ == "localhost"@,
            c.mpd.port == 6600,
            c.mpd.password is None,
    {
        Config { daemon: Default::default(), mpd: Default::default() }
    }
}

} // verus!

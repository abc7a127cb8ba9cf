//! The settings and the data that travel between client and server.
use vstd::prelude::*;

pub mod configclnt;
pub mod configsrv;
pub mod dirtoarhiv;

verus! {

/// How many bytes a transfer moves at a time.
pub const BUFFER_SIZE: usize = 4096;

/// The file in which a client keeps the id that the server gave it.
pub const FILE_CLIENT_ID: &'static str = "sync.id";

/// The log file of both programs.
pub const FILE_LOG: &'static str = "sync.log";

/// What parts the administrator's part of a client's settings file from the
/// part that the client sends.
pub const FILE_CONFIG_SEPARATOR: &'static str = "\r\n-------------@@@----------SEPARATOR DO NOT EDIT----------@@@-------------";

/// The greeting that opens every session.
pub const MAGIC_NUMBER: &'static str = "Z53Yj@e29";

/// The directory under which the server stores what it receives.
pub const DEFAULT_SERVER_STORE: &'static str = "_SYNC_";

/// The server that a client reaches when it is told no other.
pub const DEFAULT_SERVER: &'static str = "backup.lab31.ru:12345";

/// The port that a client adds to a server given without one.
pub const DEFAULT_SERVER_PORT: i32 = 12345;

/// Seconds a client waits between two backup rounds.
pub const DEFAULT_CLIENT_RECONNECT: u64 = 60 * 60 * 3;

/// Seconds a client waits after it failed to connect.
pub const DEFAULT_CLIENT_RECONNECT_ERROR: u64 = 60 * 1;

/// How many failures a client takes before it gives up a round.
pub const DEFAULT_CLIENT_RETRYES: u32 = 15;

/// The status byte for success.
pub const DEFAULT_OK: u8 = 100;

/// The status byte that tells a client to update itself.
pub const DEFAULT_UPDATE: u8 = 101;

/// The status byte for failure.
pub const DEFAULT_ERROR: u8 = 200;

} // verus!

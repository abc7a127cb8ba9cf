//! A small backup client/server: the protocol framing, the backup planning
//! rules and the configuration handling, with their contracts.
pub mod protocol;
pub mod types;
pub mod utils;

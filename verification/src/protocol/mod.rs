pub mod auth;
pub mod client;
pub mod net;
pub mod server;

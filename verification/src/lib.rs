//! Peer-to-peer sessions over Wi-Fi Direct groups: the platform-independent
//! session engine, its wire format and its key handling.

pub mod error;
pub mod ids;
pub mod protocol;
pub mod session;
pub mod store;
pub mod utils;

//! A per-connection HTTP/1.1 and WebSocket protocol engine: request and
//! header parsing (including chunked bodies), the upgrade handshake, the
//! frame codec, and the keep-alive session state machine.

pub mod config;
pub mod error;
pub mod protocol;
pub mod text;
pub mod websocket;

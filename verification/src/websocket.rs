//! The WebSocket side of the engine: the frame codec, the upgrade
//! handshake, and the post-upgrade session state machine.

pub mod frame;
pub mod handshake;
pub mod session;

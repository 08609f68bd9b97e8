//! The HTTP side of the engine: header storage, request parsing, body
//! framing, responses, and the per-connection orchestration decisions.

pub mod body;
pub mod conn;
pub mod handler;
pub mod headers;
pub mod request;
pub mod response;

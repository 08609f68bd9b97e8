//! The error taxonomy of the engine: I/O failures, malformed requests,
//! handshake failures, frame-decode failures, and missing files.

use vstd::prelude::*;
use vstd::string::StringExecFns;

verus! {

/// Everything that can go wrong while serving one connection.
#[derive(Debug)]
pub enum ServerError {
    /// An I/O failure, carrying the text of the underlying error.
    Io(String),
    /// A request that violates the HTTP framing this engine accepts.
    InvalidHttpRequest(&'static str),
    /// A WebSocket upgrade that could not be completed.
    WebSocketHandshakeFailed(String),
    /// A WebSocket frame that could not be decoded.
    WebSocketFrameError(&'static str),
    /// A static file that the collaborator could not find.
    FileNotFound(String),
}

impl ServerError {
    /// The message this error displays.
    pub open spec fn spec_message(&self) -> Seq<char> {
        match self {
            ServerError::Io(e) => "I/O error: "@ + e@,
            ServerError::InvalidHttpRequest(m) => "Invalid HTTP request: "@ + m@,
            ServerError::WebSocketHandshakeFailed(m) => "WebSocket handshake failed: "@ + m@,
            ServerError::WebSocketFrameError(m) => "WebSocket frame error: "@ + m@,
            ServerError::FileNotFound(p) => "Static file not found: "@ + p@,
        }
    }

    /// Render the error's message.
    pub fn message(&self) -> (r: String)
        ensures
            r@ == self.spec_message(),
    {
        match self {
            ServerError::Io(e) => String::from_str("I/O error: ").concat(e.as_str()),
            ServerError::InvalidHttpRequest(m) => String::from_str(
                "Invalid HTTP request: ",
            ).concat(m),
            ServerError::WebSocketHandshakeFailed(m) => String::from_str(
                "WebSocket handshake failed: ",
            ).concat(m.as_str()),
            ServerError::WebSocketFrameError(m) => String::from_str(
                "WebSocket frame error: ",
            ).concat(m),
            ServerError::FileNotFound(p) => String::from_str(
                "Static file not found: ",
            ).concat(p.as_str()),
        }
    }
}

} // verus!

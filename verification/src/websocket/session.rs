//! The post-upgrade session: a state machine over the awaiting-pong flag
//! that decides, for each keep-alive tick and each decoded frame, what to
//! send and whether the connection ends; and the buffer step that
//! resolves accumulated bytes into one frame.

use vstd::prelude::*;
use vstd::string::StringExecFns;
use crate::error::ServerError;
use crate::websocket::frame::{WebSocketFrame, FrameModel, ParseError, spec_decode};

verus! {

/// What the session does in reaction to one event.
pub enum WsAction {
    /// Send this frame and stay open.
    Send(WebSocketFrame),
    /// Send this frame best-effort, then close the connection.
    SendAndClose(WebSocketFrame),
    /// Nothing to send; stay open.
    Idle,
}

/// The session state while the socket is open.
pub struct WsSession {
    /// A ping has been sent whose pong has not yet arrived.
    pub awaiting_pong: bool,
}

impl WsSession {
    /// The state right after the handshake: no ping outstanding.
    pub fn new() -> (r: Self)
        ensures
            !r.awaiting_pong,
    {
        WsSession { awaiting_pong: false }
    }

    /// One keep-alive tick: if the last ping is still unanswered, close
    /// with code 1002; otherwise send an empty ping and start waiting.
    pub fn on_tick(&mut self) -> (a: WsAction)
        ensures
            old(self).awaiting_pong ==> (a matches WsAction::SendAndClose(f) && f@
                == FrameModel::Close(Some((1002, "Ping timeout"@)))) && *final(self)
                == *old(self),
            !old(self).awaiting_pong ==> (a matches WsAction::Send(f) && f@ == FrameModel::Ping(
                Seq::<u8>::empty(),
            )) && final(self).awaiting_pong,
    {
        if self.awaiting_pong {
            WsAction::SendAndClose(WebSocketFrame::close_with_code(1002, "Ping timeout"))
        } else {
            self.awaiting_pong = true;
            WsAction::Send(WebSocketFrame::Ping(Vec::new()))
        }
    }

    /// One received frame: echo text behind an `Echo: ` prefix, echo
    /// binary unchanged, answer a ping with its pong, note a pong, and
    /// answer a close with an empty close before closing.
    pub fn on_frame(&mut self, frame: WebSocketFrame) -> (a: WsAction)
        ensures
            frame@ matches FrameModel::Text(t) ==> (a matches WsAction::Send(f) && f@
                == FrameModel::Text("Echo: "@ + t)) && *final(self) == *old(self),
            frame@ matches FrameModel::Binary(d) ==> (a matches WsAction::Send(f) && f@
                == FrameModel::Binary(d)) && *final(self) == *old(self),
            frame@ matches FrameModel::Ping(d) ==> (a matches WsAction::Send(f) && f@
                == FrameModel::Pong(d)) && *final(self) == *old(self),
            frame@ matches FrameModel::Pong(d) ==> (a is Idle) && !final(self).awaiting_pong,
            frame@ matches FrameModel::Close(c) ==> (a matches WsAction::SendAndClose(f) && f@
                == FrameModel::Close(None)) && *final(self) == *old(self),
    {
        match frame {
            WebSocketFrame::Text(text) => {
                let reply = String::from_str("Echo: ").concat(text.as_str());
                WsAction::Send(WebSocketFrame::Text(reply))
            },
            WebSocketFrame::Binary(data) => WsAction::Send(WebSocketFrame::Binary(data)),
            WebSocketFrame::Ping(data) => WsAction::Send(WebSocketFrame::Pong(data)),
            WebSocketFrame::Pong(_) => {
                self.awaiting_pong = false;
                WsAction::Idle
            },
            WebSocketFrame::Close(_) => WsAction::SendAndClose(WebSocketFrame::Close(None)),
        }
    }
}

/// The message surfaced for a fatal decode failure.
pub open spec fn frame_error_text(e: ParseError) -> Seq<char> {
    match e {
        ParseError::Incomplete => ""@,
        ParseError::InvalidUtf8 => "invalid UTF-8 in text frame"@,
        ParseError::ControlFrameTooLarge => "control frame too large"@,
        ParseError::UnmaskedClientFrame => "unmasked client frame"@,
        ParseError::InvalidCloseCode => "invalid close code"@,
    }
}

/// Remove the first `n` bytes of a buffer.
fn drain_front(buffer: &mut Vec<u8>, n: usize)
    requires
        n <= old(buffer)@.len(),
    ensures
        final(buffer)@ == old(buffer)@.skip(n as int),
{
    let tail = buffer.split_off(n);
    *buffer = tail;
}

/// Resolve the next frame from the receive buffer: on a complete frame,
/// drop its bytes from the front and hand it out; report `None` when more
/// bytes are needed; surface any other decode failure, leaving the buffer
/// untouched.
pub fn next_frame(buffer: &mut Vec<u8>) -> (r: Result<Option<WebSocketFrame>, ServerError>)
    ensures
        match spec_decode(old(buffer)@) {
            Ok(p) => r matches Ok(of) && (of matches Some(f) && f@ == p.0) && final(buffer)@
                == old(buffer)@.skip(p.1),
            Err(e) => if e is Incomplete {
                r matches Ok(of) && of is None && *final(buffer) == *old(buffer)
            } else {
                (r matches Err(se) && (se matches ServerError::WebSocketFrameError(m) && m@
                    == frame_error_text(e))) && *final(buffer) == *old(buffer)
            },
        },
{
    match WebSocketFrame::parse(buffer.as_slice()) {
        Ok((frame, consumed)) => {
            drain_front(buffer, consumed);
            Ok(Some(frame))
        },
        Err(ParseError::Incomplete) => Ok(None),
        Err(ParseError::InvalidUtf8) => Err(
            ServerError::WebSocketFrameError("invalid UTF-8 in text frame"),
        ),
        Err(ParseError::ControlFrameTooLarge) => Err(
            ServerError::WebSocketFrameError("control frame too large"),
        ),
        Err(ParseError::UnmaskedClientFrame) => Err(
            ServerError::WebSocketFrameError("unmasked client frame"),
        ),
        Err(ParseError::InvalidCloseCode) => Err(
            ServerError::WebSocketFrameError("invalid close code"),
        ),
    }
}

} // verus!

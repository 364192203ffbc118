//! The connection manager: the socket lifecycle as an explicit state
//! machine, with every decision verified.
//!
//! The manager owns no socket itself: the caller performs the transport work
//! (the TLS handshake, each send, each receive) and hands every inbound
//! frame to [`ChatClient::receive_next`], which decides what to answer and
//! what to surface.

use crate::ChatError;
use crate::config::ChatAppConfig;
use crate::event::{BaseEventData, BaseV, ChatMessageData, ChatV, Event, EventData, EventV,
    ev_view, sp_encode};
use vstd::prelude::*;

verus! {

/// The connection lifecycle.
#[derive(Debug, Clone, Copy, PartialEq, Eq, Structural)]
pub enum ConnState {
    Disconnected,
    Connecting,
    Connected,
    Closed,
}

/// A command the user interface sends to the running services.
#[derive(Debug, Clone, PartialEq)]
pub enum Command {
    SendMessage(String),
}

/// What one received frame surfaces to the caller. Pong frames are skipped
/// during receive, so `Pong` is only ever built by callers of their own.
#[derive(Debug, Clone, PartialEq)]
pub enum WebSocketMessage {
    Event(Event),
    Ping,
    Pong,
    Close,
}

/// One inbound frame, as the transport hands it over.
#[derive(Debug, Clone, PartialEq)]
pub enum Frame {
    Text(String),
    Binary(Vec<u8>),
    Ping(Vec<u8>),
    Pong(Vec<u8>),
    Close,
    Other,
}

/// One outbound frame the caller must put on the wire.
#[derive(Debug, Clone, PartialEq)]
pub enum OutFrame {
    Text(String),
    Pong(Vec<u8>),
    Close,
}

/// What handling one frame produced: a frame to answer with, and a message
/// to surface.
#[derive(Debug, Clone, PartialEq)]
pub struct FrameOutcome {
    pub reply: Option<OutFrame>,
    pub message: Option<WebSocketMessage>,
}

/// The upgrade request of the handshake: the address and every header the
/// protocol requires.
#[derive(Debug, Clone, PartialEq)]
pub struct HandshakeRequest {
    pub url: String,
    pub headers: Vec<(String, String)>,
}

/// The chat connection manager.
#[derive(Debug)]
pub struct ChatClient {
    pub config: ChatAppConfig,
    pub state: ConnState,
}

/// Relies on url::Url::parse and url::Url::host_str: the host part of an
/// absolute URL, a function of the text alone.
pub uninterp spec fn host_of(s: Seq<char>) -> Option<Seq<char>>;

/// Relies on url::Url::parse and url::Url::host_str to read the host part
/// of an address.
#[verifier::external_body]
fn url_host(s: &str) -> (r: Option<String>)
    ensures
        match r {
            Some(h) => host_of(s@) == Some(h@),
            None => host_of(s@) is None,
        },
{
    match url::Url::parse(s) {
        Ok(u) => u.host_str().map(|h| h.to_string()),
        Err(_) => None,
    }
}

impl ChatClient {
    /// A fresh manager: not yet connected.
    pub fn new(config: ChatAppConfig) -> (c: ChatClient)
        ensures
            c.state is Disconnected,
            c.config.websocket_url@ == config.websocket_url@,
            c.config.token == config.token,
    {
        ChatClient { config, state: ConnState::Disconnected }
    }

    /// The lifecycle state.
    pub fn state(&self) -> (s: ConnState)
        ensures
            s == self.state,
    {
        self.state
    }

    /// Begin the connection: build the upgrade request the transport must
    /// send, with every header the protocol requires. `key` is the freshly
    /// generated `Sec-WebSocket-Key`.
    ///
    /// Allowed only before any connection was made; the manager then waits
    /// in `Connecting` for [`ChatClient::on_connected`].
    pub fn connect(&mut self, key: String) -> (r: Result<HandshakeRequest, ChatError>)
        ensures
            old(self).config == final(self).config,
            match r {
                Ok(req) => {
                    &&& old(self).state is Disconnected
                    &&& final(self).state is Connecting
                    &&& old(self).config.token is Some
                    &&& req.url@ == old(self).config.websocket_url@
                    &&& req.headers@.len() == 8
                    &&& req.headers@[0].0@ == "Host"@ && Some(req.headers@[0].1@) == host_of(
                        old(self).config.websocket_url@,
                    )
                    &&& req.headers@[1].0@ == "Connection"@ && req.headers@[1].1@ == "Upgrade"@
                    &&& req.headers@[2].0@ == "Upgrade"@ && req.headers@[2].1@ == "websocket"@
                    &&& req.headers@[3].0@ == "Sec-WebSocket-Version"@ && req.headers@[3].1@
                        == "13"@
                    &&& req.headers@[4].0@ == "Sec-WebSocket-Key"@ && req.headers@[4].1@ == key@
                    &&& req.headers@[5].0@ == "Origin"@ && req.headers@[5].1@ == old(self).config.origin_url@
                    &&& req.headers@[6].0@ == "User-Agent"@ && req.headers@[6].1@
                        == "dgg-chat-client"@
                    &&& req.headers@[7].0@ == "authtoken"@ && Some(req.headers@[7].1@) == (
                    match old(self).config.token {
                        Some(t) => Some(t@),
                        None => None,
                    })
                },
                Err(e) => {
                    &&& final(self).state == old(self).state
                    &&& (e is StateError <==> !(old(self).state is Disconnected))
                    &&& !(old(self).state is Disconnected) || (e is TransportError && (old(self).config.token is None || host_of(old(self).config.websocket_url@) is None))
                },
            },
    {
        match self.state {
            ConnState::Disconnected => {},
            _ => {
                return Err(ChatError::StateError);
            },
        }
        let token = match &self.config.token {
            Some(t) => t.clone(),
            None => {
                return Err(
                    ChatError::TransportError(String::from_str("the session has no auth token")),
                );
            },
        };
        let host = match url_host(self.config.websocket_url.as_str()) {
            Some(h) => h,
            None => {
                return Err(
                    ChatError::TransportError(
                        String::from_str("the socket address has no host part"),
                    ),
                );
            },
        };
        let mut headers: Vec<(String, String)> = Vec::new();
        headers.push((String::from_str("Host"), host));
        headers.push((String::from_str("Connection"), String::from_str("Upgrade")));
        headers.push((String::from_str("Upgrade"), String::from_str("websocket")));
        headers.push((String::from_str("Sec-WebSocket-Version"), String::from_str("13")));
        headers.push((String::from_str("Sec-WebSocket-Key"), key));
        headers.push((String::from_str("Origin"), self.config.origin_url.clone()));
        headers.push((String::from_str("User-Agent"), String::from_str("dgg-chat-client")));
        headers.push((String::from_str("authtoken"), token));
        let req = HandshakeRequest { url: self.config.websocket_url.clone(), headers };
        self.state = ConnState::Connecting;
        Ok(req)
    }

    /// The transport reports that the upgrade succeeded.
    pub fn on_connected(&mut self) -> (r: Result<(), ChatError>)
        ensures
            old(self).config == final(self).config,
            match r {
                Ok(_) => old(self).state is Connecting && final(self).state is Connected,
                Err(e) => e is StateError && !(old(self).state is Connecting) && final(self).state == old(self).state,
            },
    {
        match self.state {
            ConnState::Connecting => {
                self.state = ConnState::Connected;
                Ok(())
            },
            _ => Err(ChatError::StateError),
        }
    }

    /// The transport reports that the upgrade failed; the manager returns to
    /// its starting state.
    pub fn on_connect_failed(&mut self) -> (r: Result<(), ChatError>)
        ensures
            old(self).config == final(self).config,
            match r {
                Ok(_) => old(self).state is Connecting && final(self).state is Disconnected,
                Err(e) => e is StateError && !(old(self).state is Connecting) && final(self).state == old(self).state,
            },
    {
        match self.state {
            ConnState::Connecting => {
                self.state = ConnState::Disconnected;
                Ok(())
            },
            _ => Err(ChatError::StateError),
        }
    }

    /// Build the one wire line that sends `message` as a chat message.
    /// Allowed only while connected; the caller puts the returned text frame
    /// on the wire. At most one send is in flight at a time because each
    /// send needs `&mut self`.
    pub fn send_message(&mut self, message: String) -> (r: Result<OutFrame, ChatError>)
        ensures
            old(self).config == final(self).config,
            final(self).state == old(self).state,
            match r {
                Ok(f) => {
                    &&& old(self).state is Connected
                    &&& f matches OutFrame::Text(line)
                    &&& Some(line@) == sp_encode(
                        EventV::ChatMessage(
                            ChatV {
                                data: message@,
                                base: BaseV { user: None, timestamp: None, extra: Seq::empty() },
                            },
                        ),
                    )
                },
                Err(e) => e is StateError && !(old(self).state is Connected),
            },
    {
        match self.state {
            ConnState::Connected => {},
            _ => {
                return Err(ChatError::StateError);
            },
        }
        let ev = Event::ChatMessage(
            EventData {
                data: ChatMessageData { data: message },
                base: BaseEventData { user: None, timestamp: None, extra: Vec::new() },
            },
        );
        match crate::event::encode(&ev) {
            Ok(line) => Ok(OutFrame::Text(line)),
            Err(_) => {
                proof {
                    assert(false);
                }
                Err(ChatError::StateError)
            },
        }
    }

    /// Handle the next inbound frame.
    ///
    /// Fails with `StateError` unless the connection is live. A text frame
    /// decodes to its event; a ping is answered with a pong and still
    /// surfaced; a close frame closes the connection and is surfaced; any
    /// other frame kind is silently skipped, a deliberate simplification and
    /// not an error. An undecodable line is a decode error.
    pub fn receive_next(&mut self, frame: Frame) -> (r: Result<FrameOutcome, ChatError>)
        ensures
            old(self).config == final(self).config,
            !(old(self).state is Connected) ==> (r matches Err(e) && e is StateError) && final(self).state == old(self).state,
            old(self).state is Connected ==> match r {
                Ok(out) => {
                    &&& (frame matches Frame::Text(line) ==> final(self).state is Connected
                        && out.reply is None && (out.message matches Some(
                        WebSocketMessage::Event(ev),
                    ) && crate::event::sp_decode(line@) == Some(ev_view(ev))))
                    &&& (frame is Ping ==> final(self).state is Connected && (
                    out.reply matches Some(OutFrame::Pong(p)) && p@ == Seq::<u8>::empty()) && (
                    out.message matches Some(m) && m is Ping))
                    &&& (frame is Close ==> final(self).state is Closed && (
                    out.reply matches Some(f) && f is Close) && (out.message matches Some(m)
                        && m is Close))
                    &&& ((frame is Binary || frame is Pong || frame is Other) ==> final(self).state is Connected && out.reply is None && out.message is None)
                },
                Err(e) => {
                    &&& final(self).state == old(self).state
                    &&& (frame matches Frame::Text(line) && e is DecodeError
                        && crate::event::sp_decode(line@) is None)
                },
            },
    {
        match self.state {
            ConnState::Connected => {},
            _ => {
                return Err(ChatError::StateError);
            },
        }
        match frame {
            Frame::Text(line) => {
                match crate::event::decode(line.as_str()) {
                    Ok(ev) => Ok(
                        FrameOutcome {
                            reply: None,
                            message: Some(WebSocketMessage::Event(ev)),
                        },
                    ),
                    Err(e) => Err(e),
                }
            },
            Frame::Binary(_) => Ok(FrameOutcome { reply: None, message: None }),
            Frame::Ping(_) => Ok(
                FrameOutcome {
                    reply: Some(OutFrame::Pong(Vec::new())),
                    message: Some(WebSocketMessage::Ping),
                },
            ),
            Frame::Pong(_) => Ok(FrameOutcome { reply: None, message: None }),
            Frame::Close => {
                self.state = ConnState::Closed;
                Ok(FrameOutcome { reply: Some(OutFrame::Close), message: Some(WebSocketMessage::Close) })
            },
            Frame::Other => Ok(FrameOutcome { reply: None, message: None }),
        }
    }

    /// Tear the connection down. Returns the close frame to send where one
    /// is owed; harmless when already closed or never connected.
    pub fn disconnect(&mut self) -> (r: Option<OutFrame>)
        ensures
            old(self).config == final(self).config,
            old(self).state is Connected ==> final(self).state is Closed && (r matches Some(f)
                && f is Close),
            !(old(self).state is Connected) ==> final(self).state == old(self).state
                && r is None,
    {
        match self.state {
            ConnState::Connected => {
                self.state = ConnState::Closed;
                Some(OutFrame::Close)
            },
            _ => None,
        }
    }
}

} // verus!

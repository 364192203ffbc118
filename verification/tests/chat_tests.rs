//! The connection manager: its states and frame handling.

use dgg_chat::chat::{ChatClient, ConnState, Frame, OutFrame, WebSocketMessage};
use dgg_chat::config::ChatAppConfig;
use dgg_chat::event::Event;
use dgg_chat::ChatError;

fn test_config() -> ChatAppConfig {
    ChatAppConfig::new(
        "https://cdn.example.test/base/".to_string(),
        "wss://chat.example.test/ws".to_string(),
        "https://www.example.test".to_string(),
        None,
        Some("SECRET-REDACTED".to_string()),
    )
}

fn connected_client() -> ChatClient {
    let mut client = ChatClient::new(test_config());
    client.connect("generated-key".to_string()).unwrap();
    client.on_connected().unwrap();
    client
}

#[test]
fn test_connect() {
    let mut client = ChatClient::new(test_config());
    assert_eq!(client.state(), ConnState::Disconnected);
    let req = client.connect("generated-key".to_string()).unwrap();
    assert_eq!(client.state(), ConnState::Connecting);
    assert_eq!(req.url, "wss://chat.example.test/ws");
    let names: Vec<&str> = req.headers.iter().map(|h| h.0.as_str()).collect();
    assert_eq!(
        names,
        vec![
            "Host",
            "Connection",
            "Upgrade",
            "Sec-WebSocket-Version",
            "Sec-WebSocket-Key",
            "Origin",
            "User-Agent",
            "authtoken",
        ],
    );
    assert_eq!(req.headers[0].1, "chat.example.test");
    assert_eq!(req.headers[3].1, "13");
    assert_eq!(req.headers[4].1, "generated-key");
    assert_eq!(req.headers[7].1, "SECRET-REDACTED");
    client.on_connected().unwrap();
    assert_eq!(client.state(), ConnState::Connected);
}

#[test]
fn receive_before_connect_is_a_state_error() {
    let mut client = ChatClient::new(test_config());
    let r = client.receive_next(Frame::Text("MUTE {}".to_string()));
    assert_eq!(r, Err(ChatError::StateError));
}

#[test]
fn receive_after_disconnect_is_a_state_error() {
    let mut client = connected_client();
    let close = client.disconnect();
    assert_eq!(close, Some(OutFrame::Close));
    assert_eq!(client.state(), ConnState::Closed);
    let r = client.receive_next(Frame::Text("MUTE {}".to_string()));
    assert_eq!(r, Err(ChatError::StateError));
    // A second disconnect is harmless.
    assert_eq!(client.disconnect(), None);
    assert_eq!(client.state(), ConnState::Closed);
}

#[test]
fn ping_is_answered_and_surfaced() {
    let mut client = connected_client();
    let out = client.receive_next(Frame::Ping(vec![1, 2, 3])).unwrap();
    assert_eq!(out.reply, Some(OutFrame::Pong(Vec::new())));
    assert_eq!(out.message, Some(WebSocketMessage::Ping));
    assert_eq!(client.state(), ConnState::Connected);
}

#[test]
fn text_frames_decode_to_events() {
    let mut client = connected_client();
    let out = client
        .receive_next(Frame::Text("MSG {\"nick\":\"alice\",\"features\":[],\"data\":\"hey\"}".to_string()))
        .unwrap();
    match out.message {
        Some(WebSocketMessage::Event(Event::ChatMessage(d))) => {
            assert_eq!(d.data.data, "hey");
        }
        other => panic!("unexpected message: {:?}", other),
    }
    let bad = client.receive_next(Frame::Text("MSG oops".to_string()));
    assert!(matches!(bad, Err(ChatError::DecodeError(raw)) if raw == "MSG oops"));
}

#[test]
fn close_frames_close_the_connection() {
    let mut client = connected_client();
    let out = client.receive_next(Frame::Close).unwrap();
    assert_eq!(out.reply, Some(OutFrame::Close));
    assert_eq!(out.message, Some(WebSocketMessage::Close));
    assert_eq!(client.state(), ConnState::Closed);
}

#[test]
fn other_frames_are_skipped() {
    // Frames that are neither text, ping nor close are silently skipped:
    // a deliberate simplification, not an error.
    let mut client = connected_client();
    for frame in [Frame::Other, Frame::Pong(vec![]), Frame::Binary(vec![0])] {
        let out = client.receive_next(frame).unwrap();
        assert_eq!(out.reply, None);
        assert_eq!(out.message, None);
    }
    assert_eq!(client.state(), ConnState::Connected);
}

#[test]
fn send_message_builds_the_wire_line() {
    let mut idle = ChatClient::new(test_config());
    assert_eq!(idle.send_message("hi".to_string()), Err(ChatError::StateError));
    let mut client = connected_client();
    let frame = client.send_message("hi \"there\"".to_string()).unwrap();
    assert_eq!(frame, OutFrame::Text("MSG {\"data\":\"hi \\\"there\\\"\"}".to_string()));
}

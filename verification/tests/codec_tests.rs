//! The event codec, exercised on concrete wire lines.

use dgg_chat::event::{BaseEventData, ChatMessageData, Event, EventData, decode, encode};
use dgg_chat::json::JsonValue;
use dgg_chat::ChatError;

#[test]
fn parse_event_names() {
    let line = "NAMES {\"connectioncount\":31415,\"users\":[{\"nick\":\"alice\",\"features\":[\"subscriber\"]},{\"nick\":\"bob\",\"features\":[]}]}";
    let event = decode(line).unwrap();
    match &event {
        Event::ServedConnections(d) => {
            assert_eq!(d.data.connection_count, 31415);
            assert_eq!(d.data.users.len(), 2);
            assert_eq!(d.data.users[0].nick, "alice");
            assert_eq!(d.data.users[0].features, vec!["subscriber".to_string()]);
            assert_eq!(d.data.users[1].nick, "bob");
        }
        other => panic!("not a roster: {:?}", other),
    }
}

#[test]
fn parse_event_quit() {
    let line = "QUIT {\"nick\":\"carol\",\"features\":[],\"timestamp\":1609459200000}";
    let event = decode(line).unwrap();
    match &event {
        Event::UserQuit(b) => {
            assert_eq!(b.user.as_ref().unwrap().nick, "carol");
            assert_eq!(b.timestamp, Some(1609459200000));
        }
        other => panic!("not a quit: {:?}", other),
    }
}

#[test]
fn parse_event_msg() {
    let line = "MSG {\"nick\":\"alice\",\"features\":[\"subscriber\"],\"data\":\"hello\"}";
    let event = decode(line).unwrap();
    match &event {
        Event::ChatMessage(d) => {
            assert_eq!(d.data.data, "hello");
            assert_eq!(d.base.user.as_ref().unwrap().nick, "alice");
        }
        other => panic!("not a chat message: {:?}", other),
    }
}

#[test]
fn parse_event_pin() {
    let line = "PIN {\"nick\":\"mod\",\"features\":[\"moderator\"],\"data\":\"read the rules\"}";
    let event = decode(line).unwrap();
    assert!(matches!(event, Event::Pin(_)));
}

#[test]
fn roster_users_with_unknown_fields_still_read() {
    let line = "NAMES {\"connectioncount\":1,\"users\":[{\"nick\":\"alice\",\"features\":[],\"watching\":null}]}";
    let event = decode(line).unwrap();
    match &event {
        Event::ServedConnections(d) => assert_eq!(d.data.users[0].nick, "alice"),
        other => panic!("not a roster: {:?}", other),
    }
}

#[test]
fn encode_reproduces_roster_lines() {
    let line = "NAMES {\"connectioncount\":2,\"users\":[{\"nick\":\"alice\",\"features\":[\"subscriber\"]},{\"nick\":\"bob\",\"features\":[],\"id\":7}]}";
    let first = decode(line).unwrap();
    let encoded = encode(&first).unwrap();
    assert!(encoded.starts_with("NAMES "));
    assert_eq!(decode(&encoded).unwrap(), first);
}

#[test]
fn mute_null_equals_empty_object() {
    let a = decode("MUTE null").unwrap();
    let b = decode("MUTE {}").unwrap();
    assert_eq!(a, b);
}

#[test]
fn unknown_token_keeps_payload() {
    let event = decode("FOO_BAR {\"x\":1}").unwrap();
    match &event {
        Event::Unknown(d) => {
            let expected = JsonValue::Obj(vec![(
                "x".to_string(),
                JsonValue::Num("1".to_string()),
            )]);
            assert_eq!(d.data, expected);
        }
        other => panic!("not unknown: {:?}", other),
    }
}

#[test]
fn encode_reproduces_decoded_line() {
    let line = "MUTE {\"nick\":\"alice\",\"features\":[],\"timestamp\":1609459200000,\"extraStuff\":[1,2]}";
    let first = decode(line).unwrap();
    let encoded = encode(&first).unwrap();
    assert!(encoded.starts_with("MUTE "));
    let second = decode(&encoded).unwrap();
    assert_eq!(first, second);
}

#[test]
fn encode_round_trips_created_date() {
    let line = "JOIN {\"nick\":\"dan\",\"features\":[],\"id\":42,\"createdDate\":\"2019-03-24T19:18:26Z\"}";
    let first = decode(line).unwrap();
    match &first {
        Event::UserJoined(b) => {
            let u = b.user.as_ref().unwrap();
            assert_eq!(u.id, Some(42));
            let d = u.created_date.unwrap();
            assert_eq!((d.year, d.month, d.day), (2019, 3, 24));
            assert_eq!((d.hour, d.minute, d.second), (19, 18, 26));
        }
        other => panic!("not a join: {:?}", other),
    }
    let encoded = encode(&first).unwrap();
    assert!(encoded.contains("\"createdDate\":\"2019-03-24T19:18:26Z\""));
    assert_eq!(decode(&encoded).unwrap(), first);
}

#[test]
fn encode_of_unknown_fails() {
    let event = Event::Unknown(EventData {
        data: JsonValue::Null,
        base: BaseEventData { user: None, timestamp: None, extra: Vec::new() },
    });
    assert_eq!(encode(&event), Err(ChatError::EncodeError));
}

#[test]
fn encode_of_transport_variants_fails() {
    let base = BaseEventData { user: None, timestamp: None, extra: Vec::new() };
    assert_eq!(encode(&Event::WebSocketClose(base.clone())), Err(ChatError::EncodeError));
    assert_eq!(encode(&Event::HandlerError(base)), Err(ChatError::EncodeError));
}

#[test]
fn encode_chat_message_line() {
    let event = Event::ChatMessage(EventData {
        data: ChatMessageData { data: "hi there".to_string() },
        base: BaseEventData { user: None, timestamp: None, extra: Vec::new() },
    });
    assert_eq!(encode(&event).unwrap(), "MSG {\"data\":\"hi there\"}");
}

#[test]
fn decode_rejects_malformed_lines() {
    assert!(matches!(decode("MUTE"), Err(ChatError::DecodeError(raw)) if raw == "MUTE"));
    assert!(matches!(decode("MUTE [1]"), Err(ChatError::DecodeError(_))));
    assert!(matches!(decode("MSG {\"data\":7}"), Err(ChatError::DecodeError(_))));
    assert!(matches!(decode("QUIT {\"nick\":3,\"features\":[]}"), Err(ChatError::DecodeError(_))));
}

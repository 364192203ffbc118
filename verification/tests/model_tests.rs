//! The small models: datetimes, colors, numbers, flairs and embed links.

use dgg_chat::color::Rgb8;
use dgg_chat::datetime::DateTime;
use dgg_chat::embed::{EmbedLink, EmbedLinkKind};
use dgg_chat::flair::FlairKind;
use dgg_chat::mock::MockChatServer;
use dgg_chat::numbers::{i64_to_text, u64_to_text};

#[test]
fn datetime_round_trips_its_wire_text() {
    let d = DateTime { year: 2019, month: 3, day: 24, hour: 19, minute: 18, second: 26 };
    let text = d.to_text();
    assert_eq!(text, "2019-03-24T19:18:26Z");
    let chars: Vec<char> = text.chars().collect();
    assert_eq!(DateTime::parse_text(&chars), Some(d));
}

#[test]
fn datetime_rejects_invalid_dates() {
    let bad: Vec<char> = "2019-02-30T00:00:00Z".chars().collect();
    assert_eq!(DateTime::parse_text(&bad), None);
    let leap: Vec<char> = "2020-02-29T23:59:59Z".chars().collect();
    assert!(DateTime::parse_text(&leap).is_some());
    let not_leap: Vec<char> = "2100-02-29T00:00:00Z".chars().collect();
    assert_eq!(DateTime::parse_text(&not_leap), None);
    let short: Vec<char> = "2019-03-24".chars().collect();
    assert_eq!(DateTime::parse_text(&short), None);
}

#[test]
fn colors_round_trip_their_hex_text() {
    let c = Rgb8 { r: 0x1e, g: 0x91, b: 0xc8 };
    assert_eq!(c.to_text(), "#1e91c8");
    let chars: Vec<char> = "#1e91c8".chars().collect();
    assert_eq!(Rgb8::parse_text(&chars), Some(c));
    // Either case is read; printing stays lower-case.
    let upper: Vec<char> = "#1E91C8".chars().collect();
    assert_eq!(Rgb8::parse_text(&upper), Some(c));
    let bad: Vec<char> = "#xyzxyz".chars().collect();
    assert_eq!(Rgb8::parse_text(&bad), None);
}

#[test]
fn canonical_integer_texts() {
    assert_eq!(u64_to_text(0), "0");
    assert_eq!(u64_to_text(31415), "31415");
    assert_eq!(i64_to_text(-7), "-7");
    assert_eq!(i64_to_text(i64::MIN), "-9223372036854775808");
}

#[test]
fn flair_tokens_name_their_roles() {
    assert_eq!(FlairKind::from_name("moderator"), FlairKind::Moderator);
    assert_eq!(FlairKind::from_name("flair1"), FlairKind::SubscriberTier2);
    assert_eq!(FlairKind::from_name("flair58"), FlairKind::NewUser);
    assert_eq!(FlairKind::from_name("flair31"), FlairKind::Other("flair31".to_string()));
    assert_eq!(FlairKind::from_name("vip"), FlairKind::Vip);
}

#[test]
fn embed_links_point_at_their_platform() {
    let l = EmbedLink::new("#youtube/abc123", "youtube", "abc123").unwrap();
    assert_eq!(l.platform, EmbedLinkKind::YouTube);
    assert_eq!(l.url(), "https://www.youtube.com/watch?v=abc123");
    assert_eq!(l.value(), "#youtube/abc123");
    let t = EmbedLink::new("#twitch/somebody", "twitch", "somebody").unwrap();
    assert_eq!(t.url(), "https://www.twitch.tv/somebody");
    let k = EmbedLink::new("#kick/somebody", "kick", "somebody").unwrap();
    assert_eq!(k.url(), "https://kick.tv/somebody");
    assert!(EmbedLink::new("#vimeo/x", "vimeo", "x").is_err());
}

#[test]
fn mock_server_starts_unstarted() {
    let mut server = MockChatServer::new("127.0.0.1:9002");
    assert_eq!(server.address, "127.0.0.1:9002");
    assert!(!server.is_started);
    server.mark_started();
    assert!(server.is_started);
}

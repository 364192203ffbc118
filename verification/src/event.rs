//! The event codec: wire lines to typed events and back.
//!
//! A wire line is `<TOKEN> <payload>`, the payload a JSON object (the literal
//! `null` is read as `{}`). The token picks the variant; recognized fields
//! are lifted into typed data, the remainder is kept as an open bag.

use crate::ChatError;
use crate::datetime::{DateTime, dt_text, dt_valid};
use crate::json::{Jv, JsonValue, keys_unique, obj_get, view_fields};
use crate::numbers::{dec_digits, int_digits};
use crate::text::view_strings;
use vstd::prelude::*;

verus! {

// ---------------------------------------------------------------------------
// The typed events.
// ---------------------------------------------------------------------------
/// A chat user as the wire carries it.
#[derive(Debug, Clone, PartialEq)]
pub struct User {
    pub id: Option<u32>,
    pub nick: String,
    pub features: Vec<String>,
    pub created_date: Option<DateTime>,
}

/// The view of a [`User`].
pub struct UserV {
    pub id: Option<u32>,
    pub nick: Seq<char>,
    pub features: Seq<Seq<char>>,
    pub created_date: Option<DateTime>,
}

impl View for User {
    type V = UserV;

    open spec fn view(&self) -> UserV {
        UserV {
            id: self.id,
            nick: self.nick@,
            features: view_strings(self.features@),
            created_date: self.created_date,
        }
    }
}

/// What every event carries: the sender, the send time in milliseconds, and
/// the open bag of fields the codec does not recognize.
#[derive(Debug, Clone, PartialEq)]
pub struct BaseEventData {
    pub user: Option<User>,
    pub timestamp: Option<i64>,
    pub extra: Vec<(String, JsonValue)>,
}

/// The view of a [`BaseEventData`].
pub struct BaseV {
    pub user: Option<UserV>,
    pub timestamp: Option<i64>,
    pub extra: Seq<(Seq<char>, Jv)>,
}

pub open spec fn base_view(b: BaseEventData) -> BaseV {
    BaseV {
        user: match b.user {
            Some(u) => Some(u@),
            None => None,
        },
        timestamp: b.timestamp,
        extra: view_fields(b.extra@),
    }
}

/// Typed payload plus the shared base data.
#[derive(Debug, Clone, PartialEq)]
pub struct EventData<T> {
    pub data: T,
    pub base: BaseEventData,
}

/// The payload of a `NAMES` event: the users currently connected.
#[derive(Debug, Clone, PartialEq)]
pub struct ServedConnectionsData {
    pub users: Vec<User>,
    pub connection_count: u32,
}

/// The payload of a `MSG` event: the message text.
#[derive(Debug, Clone, PartialEq)]
pub struct ChatMessageData {
    pub data: String,
}

/// One decoded unit of the wire protocol, tagged by its wire token.
#[derive(Debug, Clone, PartialEq)]
pub enum Event {
    Connected(BaseEventData),
    ServedConnections(EventData<ServedConnectionsData>),
    UserJoined(BaseEventData),
    UserQuit(BaseEventData),
    Broadcast(BaseEventData),
    ChatMessage(EventData<ChatMessageData>),
    Whisper(BaseEventData),
    WhisperSent(BaseEventData),
    Mute(BaseEventData),
    Unmute(BaseEventData),
    Ban(BaseEventData),
    Unban(BaseEventData),
    SubOnly(BaseEventData),
    Pin(BaseEventData),
    ErrorMessage(BaseEventData),
    BeforeEveryMessage(BaseEventData),
    AfterEveryMessage(BaseEventData),
    Mention(BaseEventData),
    WebSocketError(BaseEventData),
    WebSocketClose(BaseEventData),
    HandlerError(BaseEventData),
    Unknown(EventData<JsonValue>),
}

/// The view of a roster payload.
pub struct RosterV {
    pub users: Seq<UserV>,
    pub connection_count: u32,
    pub base: BaseV,
}

/// The view of a chat-message payload.
pub struct ChatV {
    pub data: Seq<char>,
    pub base: BaseV,
}

/// The view of an [`Event`].
pub enum EventV {
    Connected(BaseV),
    ServedConnections(RosterV),
    UserJoined(BaseV),
    UserQuit(BaseV),
    Broadcast(BaseV),
    ChatMessage(ChatV),
    Whisper(BaseV),
    WhisperSent(BaseV),
    Mute(BaseV),
    Unmute(BaseV),
    Ban(BaseV),
    Unban(BaseV),
    SubOnly(BaseV),
    Pin(BaseV),
    ErrorMessage(BaseV),
    BeforeEveryMessage(BaseV),
    AfterEveryMessage(BaseV),
    Mention(BaseV),
    WebSocketError(BaseV),
    WebSocketClose(BaseV),
    HandlerError(BaseV),
    Unknown(Jv),
}

pub open spec fn view_users(xs: Seq<User>) -> Seq<UserV>
    decreases xs,
{
    if xs.len() == 0 {
        Seq::empty()
    } else {
        view_users(xs.drop_last()).push(xs.last()@)
    }
}

pub open spec fn ev_view(e: Event) -> EventV {
    match e {
        Event::Connected(b) => EventV::Connected(base_view(b)),
        Event::ServedConnections(d) => EventV::ServedConnections(
            RosterV {
                users: view_users(d.data.users@),
                connection_count: d.data.connection_count,
                base: base_view(d.base),
            },
        ),
        Event::UserJoined(b) => EventV::UserJoined(base_view(b)),
        Event::UserQuit(b) => EventV::UserQuit(base_view(b)),
        Event::Broadcast(b) => EventV::Broadcast(base_view(b)),
        Event::ChatMessage(d) => EventV::ChatMessage(
            ChatV { data: d.data.data@, base: base_view(d.base) },
        ),
        Event::Whisper(b) => EventV::Whisper(base_view(b)),
        Event::WhisperSent(b) => EventV::WhisperSent(base_view(b)),
        Event::Mute(b) => EventV::Mute(base_view(b)),
        Event::Unmute(b) => EventV::Unmute(base_view(b)),
        Event::Ban(b) => EventV::Ban(base_view(b)),
        Event::Unban(b) => EventV::Unban(base_view(b)),
        Event::SubOnly(b) => EventV::SubOnly(base_view(b)),
        Event::Pin(b) => EventV::Pin(base_view(b)),
        Event::ErrorMessage(b) => EventV::ErrorMessage(base_view(b)),
        Event::BeforeEveryMessage(b) => EventV::BeforeEveryMessage(base_view(b)),
        Event::AfterEveryMessage(b) => EventV::AfterEveryMessage(base_view(b)),
        Event::Mention(b) => EventV::Mention(base_view(b)),
        Event::WebSocketError(b) => EventV::WebSocketError(base_view(b)),
        Event::WebSocketClose(b) => EventV::WebSocketClose(base_view(b)),
        Event::HandlerError(b) => EventV::HandlerError(base_view(b)),
        Event::Unknown(d) => EventV::Unknown(d.data@),
    }
}

// ---------------------------------------------------------------------------
// Field extraction, in mathematics.
// ---------------------------------------------------------------------------
/// The payload shapes: most tokens carry only base data; `MSG` adds `data`;
/// `NAMES` adds `users` and `connectioncount`.
pub enum BodyKind {
    Plain,
    Chat,
    Roster,
}

/// The keys the codec lifts out of a payload of the given shape.
pub open spec fn recognized_key(k: Seq<char>, kind: BodyKind) -> bool {
    ||| k == "nick"@
    ||| k == "features"@
    ||| k == "id"@
    ||| k == "createdDate"@
    ||| k == "timestamp"@
    ||| (kind is Chat && k == "data"@)
    ||| (kind is Roster && (k == "users"@ || k == "connectioncount"@))
}

/// The fields of a payload that the codec does not lift: the open bag, in
/// payload order.
pub open spec fn unrecognized(fs: Seq<(Seq<char>, Jv)>, kind: BodyKind) -> Seq<(Seq<char>, Jv)>
    decreases fs,
{
    if fs.len() == 0 {
        Seq::empty()
    } else {
        let rest = unrecognized(fs.drop_last(), kind);
        if recognized_key(fs.last().0, kind) {
            rest
        } else {
            rest.push(fs.last())
        }
    }
}

/// The `u32` a number literal stands for, if it is the canonical text of one.
pub open spec fn sp_u32(t: Seq<char>) -> Option<u32> {
    if exists|n: u32| t == dec_digits(n as nat) {
        Some(choose|n: u32| t == dec_digits(n as nat))
    } else {
        None
    }
}

/// The `i64` a number literal stands for, if it is the canonical text of one.
pub open spec fn sp_i64(t: Seq<char>) -> Option<i64> {
    if exists|n: i64| t == int_digits(n as int) {
        Some(choose|n: i64| t == int_digits(n as int))
    } else {
        None
    }
}

/// The datetime a text stands for, if it is the wire text of a valid one.
pub open spec fn sp_datetime(t: Seq<char>) -> Option<DateTime> {
    if exists|d: DateTime| dt_valid(d) && t == dt_text(d) {
        Some(choose|d: DateTime| dt_valid(d) && t == dt_text(d))
    } else {
        None
    }
}

/// The texts of an array of strings, if every element is a string.
pub open spec fn sp_strings(xs: Seq<Jv>) -> Option<Seq<Seq<char>>>
    decreases xs,
{
    if xs.len() == 0 {
        Some(Seq::empty())
    } else {
        match xs.first() {
            Jv::Str(s) => match sp_strings(xs.drop_first()) {
                Some(rest) => Some(seq![s] + rest),
                None => None,
            },
            _ => None,
        }
    }
}

/// The user lifted from a payload: `Some(None)` where no user fields stand,
/// `Some(Some(u))` where a well-typed user stands, `None` on a type mismatch
/// or on user fields without a `nick`.
pub open spec fn sp_user(fs: Seq<(Seq<char>, Jv)>) -> Option<Option<UserV>> {
    match obj_get(fs, "nick"@) {
        None => {
            if obj_get(fs, "features"@) is None && obj_get(fs, "id"@) is None && obj_get(
                fs,
                "createdDate"@,
            ) is None {
                Some(None)
            } else {
                None
            }
        },
        Some(nv) => match nv {
            Jv::Str(nick) => {
                let feats = match obj_get(fs, "features"@) {
                    Some(Jv::Arr(xs)) => sp_strings(xs),
                    _ => None,
                };
                let idr = match obj_get(fs, "id"@) {
                    None => Some(None),
                    Some(Jv::Num(t)) => match sp_u32(t) {
                        Some(n) => Some(Some(n)),
                        None => None,
                    },
                    Some(_) => None,
                };
                let cdr = match obj_get(fs, "createdDate"@) {
                    None => Some(None),
                    Some(Jv::Str(t)) => match sp_datetime(t) {
                        Some(d) => Some(Some(d)),
                        None => None,
                    },
                    Some(_) => None,
                };
                match (feats, idr, cdr) {
                    (Some(f), Some(i2), Some(c2)) => Some(
                        Some(UserV { id: i2, nick, features: f, created_date: c2 }),
                    ),
                    _ => None,
                }
            },
            _ => None,
        },
    }
}

/// The timestamp lifted from a payload.
pub open spec fn sp_timestamp(fs: Seq<(Seq<char>, Jv)>) -> Option<Option<i64>> {
    match obj_get(fs, "timestamp"@) {
        None => Some(None),
        Some(Jv::Num(t)) => match sp_i64(t) {
            Some(n) => Some(Some(n)),
            None => None,
        },
        Some(_) => None,
    }
}

/// The base data lifted from a payload of the given shape.
pub open spec fn sp_base(fs: Seq<(Seq<char>, Jv)>, kind: BodyKind) -> Option<BaseV> {
    match (sp_user(fs), sp_timestamp(fs)) {
        (Some(u), Some(ts)) => Some(
            BaseV { user: u, timestamp: ts, extra: unrecognized(fs, kind) },
        ),
        _ => None,
    }
}

/// A whole payload object read as one user, as the roster carries them.
/// Fields the user does not name are ignored, so an entry the server
/// extends still reads.
pub open spec fn sp_roster_user(v: Jv) -> Option<UserV> {
    match v {
        Jv::Obj(fs) => match sp_user(fs) {
            Some(Some(u)) => Some(u),
            _ => None,
        },
        _ => None,
    }
}

/// The users of a roster payload.
pub open spec fn sp_roster_users(xs: Seq<Jv>) -> Option<Seq<UserV>>
    decreases xs,
{
    if xs.len() == 0 {
        Some(Seq::empty())
    } else {
        match sp_roster_user(xs.first()) {
            Some(u) => match sp_roster_users(xs.drop_first()) {
                Some(rest) => Some(seq![u] + rest),
                None => None,
            },
            None => None,
        }
    }
}

// ---------------------------------------------------------------------------
// The wire line, in mathematics.
// ---------------------------------------------------------------------------
/// The first space of a line, or its length.
pub open spec fn find_space(s: Seq<char>, i: int) -> int
    decreases s.len() - i when 0 <= i <= s.len()
{
    if i < s.len() && s[i] != ' ' {
        find_space(s, i + 1)
    } else {
        i
    }
}

pub proof fn lemma_find_space(s: Seq<char>, i: int)
    requires
        0 <= i <= s.len(),
    ensures
        i <= find_space(s, i) <= s.len(),
        find_space(s, i) < s.len() ==> s[find_space(s, i)] == ' ',
        forall|k: int| i <= k < find_space(s, i) ==> #[trigger] s[k] != ' ',
    decreases s.len() - i,
{
    if i < s.len() && s[i] != ' ' {
        lemma_find_space(s, i + 1);
    }
}

/// A line split at its first space: the token and the raw payload.
pub open spec fn sp_split(line: Seq<char>) -> Option<(Seq<char>, Seq<char>)> {
    let p = find_space(line, 0);
    if 0 <= p < line.len() {
        Some((line.subrange(0, p), line.subrange(p + 1, line.len() as int)))
    } else {
        None
    }
}

/// The payload text after the `null` normalization.
pub open spec fn sp_normalize(pay: Seq<char>) -> Seq<char> {
    if pay == "null"@ {
        "{}"@
    } else {
        pay
    }
}

/// What a wire line decodes to, if anything: the exact mathematical
/// statement of `decode`.
pub open spec fn sp_decode(line: Seq<char>) -> Option<EventV> {
    match sp_split(line) {
        None => None,
        Some((tok, pay)) => match crate::json_parse::sp_json(sp_normalize(pay)) {
            Some(Jv::Obj(fs)) => sp_dispatch(tok, fs),
            _ => None,
        },
    }
}

/// The known wire tokens, and `Other` for the rest.
#[derive(Clone, Copy, PartialEq, Eq, Structural, Debug)]
pub enum Tok {
    Me,
    Names,
    Join,
    Quit,
    Broadcast,
    Msg,
    Privmsg,
    Privmsgsent,
    Mute,
    Unmute,
    Ban,
    Unban,
    Subonly,
    Pin,
    ErrTok,
    BeforeEvery,
    AfterEvery,
    Mention,
    WsError,
    WsClose,
    HandlerErr,
    Other,
}

/// Which token a word is.
pub open spec fn sp_tok(tok: Seq<char>) -> Tok {
    if tok == "ME"@ {
        Tok::Me
    } else if tok == "NAMES"@ {
        Tok::Names
    } else if tok == "JOIN"@ {
        Tok::Join
    } else if tok == "QUIT"@ {
        Tok::Quit
    } else if tok == "BROADCAST"@ {
        Tok::Broadcast
    } else if tok == "MSG"@ {
        Tok::Msg
    } else if tok == "PRIVMSG"@ {
        Tok::Privmsg
    } else if tok == "PRIVMSGSENT"@ {
        Tok::Privmsgsent
    } else if tok == "MUTE"@ {
        Tok::Mute
    } else if tok == "UNMUTE"@ {
        Tok::Unmute
    } else if tok == "BAN"@ {
        Tok::Ban
    } else if tok == "UNBAN"@ {
        Tok::Unban
    } else if tok == "SUBONLY"@ {
        Tok::Subonly
    } else if tok == "PIN"@ {
        Tok::Pin
    } else if tok == "ERR"@ {
        Tok::ErrTok
    } else if tok == "BEFORE_EVERY_MESSAGE"@ {
        Tok::BeforeEvery
    } else if tok == "AFTER_EVERY_MESSAGE"@ {
        Tok::AfterEvery
    } else if tok == "MENTION"@ {
        Tok::Mention
    } else if tok == "WS_ERROR"@ {
        Tok::WsError
    } else if tok == "WS_CLOSE"@ {
        Tok::WsClose
    } else if tok == "HANDLER_ERROR"@ {
        Tok::HandlerErr
    } else {
        Tok::Other
    }
}

/// The roster payload of a `NAMES` event.
pub open spec fn sp_roster(fs: Seq<(Seq<char>, Jv)>) -> Option<RosterV> {
    match sp_base(fs, BodyKind::Roster) {
        Some(b) => {
            let us = match obj_get(fs, "users"@) {
                Some(Jv::Arr(xs)) => sp_roster_users(xs),
                _ => None,
            };
            let cc = match obj_get(fs, "connectioncount"@) {
                Some(Jv::Num(t)) => sp_u32(t),
                _ => None,
            };
            match (us, cc) {
                (Some(us), Some(cc)) => Some(RosterV { users: us, connection_count: cc, base: b }),
                _ => None,
            }
        },
        None => None,
    }
}

/// The chat payload of a `MSG` event.
pub open spec fn sp_chat(fs: Seq<(Seq<char>, Jv)>) -> Option<ChatV> {
    match sp_base(fs, BodyKind::Chat) {
        Some(b) => match obj_get(fs, "data"@) {
            Some(Jv::Str(text)) => Some(ChatV { data: text, base: b }),
            _ => None,
        },
        None => None,
    }
}

/// The plain-bodied variant each token picks.
pub open spec fn plain_eventv(t: Tok, b: BaseV) -> EventV {
    match t {
        Tok::Me => EventV::Connected(b),
        Tok::Join => EventV::UserJoined(b),
        Tok::Quit => EventV::UserQuit(b),
        Tok::Broadcast => EventV::Broadcast(b),
        Tok::Privmsg => EventV::Whisper(b),
        Tok::Privmsgsent => EventV::WhisperSent(b),
        Tok::Mute => EventV::Mute(b),
        Tok::Unmute => EventV::Unmute(b),
        Tok::Ban => EventV::Ban(b),
        Tok::Unban => EventV::Unban(b),
        Tok::Subonly => EventV::SubOnly(b),
        Tok::Pin => EventV::Pin(b),
        Tok::ErrTok => EventV::ErrorMessage(b),
        Tok::BeforeEvery => EventV::BeforeEveryMessage(b),
        Tok::AfterEvery => EventV::AfterEveryMessage(b),
        Tok::Mention => EventV::Mention(b),
        Tok::WsError => EventV::WebSocketError(b),
        Tok::WsClose => EventV::WebSocketClose(b),
        _ => EventV::HandlerError(b),
    }
}

/// The variant each token picks, filled from the payload fields.
pub open spec fn sp_dispatch_tok(t: Tok, fs: Seq<(Seq<char>, Jv)>) -> Option<EventV> {
    match t {
        Tok::Names => match sp_roster(fs) {
            Some(r) => Some(EventV::ServedConnections(r)),
            None => None,
        },
        Tok::Msg => match sp_chat(fs) {
            Some(c) => Some(EventV::ChatMessage(c)),
            None => None,
        },
        Tok::Other => Some(EventV::Unknown(Jv::Obj(fs))),
        _ => match sp_base(fs, BodyKind::Plain) {
            Some(b) => Some(plain_eventv(t, b)),
            None => None,
        },
    }
}

/// The variant a token picks, filled from the payload fields.
pub open spec fn sp_dispatch(tok: Seq<char>, fs: Seq<(Seq<char>, Jv)>) -> Option<EventV> {
    sp_dispatch_tok(sp_tok(tok), fs)
}

// ---------------------------------------------------------------------------
// The outbound line, in mathematics.
// ---------------------------------------------------------------------------
/// The fields a user writes back onto the wire.
pub open spec fn enc_user_fields(u: UserV) -> Seq<(Seq<char>, Jv)> {
    seq![("nick"@, Jv::Str(u.nick))] + (match u.id {
        Some(n) => seq![("id"@, Jv::Num(dec_digits(n as nat)))],
        None => Seq::empty(),
    }) + seq![("features"@, Jv::Arr(str_values(u.features)))] + (match u.created_date {
        Some(d) => seq![("createdDate"@, Jv::Str(dt_text(d)))],
        None => Seq::empty(),
    })
}

/// String texts as JSON string values.
pub open spec fn str_values(xs: Seq<Seq<char>>) -> Seq<Jv>
    decreases xs,
{
    if xs.len() == 0 {
        Seq::empty()
    } else {
        str_values(xs.drop_last()).push(Jv::Str(xs.last()))
    }
}

/// The fields the base data writes back onto the wire: the user, then the
/// timestamp, then the open bag.
pub open spec fn enc_base_fields(b: BaseV) -> Seq<(Seq<char>, Jv)> {
    (match b.user {
        Some(u) => enc_user_fields(u),
        None => Seq::empty(),
    }) + (match b.timestamp {
        Some(ts) => seq![("timestamp"@, Jv::Num(int_digits(ts as int)))],
        None => Seq::empty(),
    }) + b.extra
}

/// A user written back as a roster entry.
pub open spec fn enc_roster_user(u: UserV) -> Jv {
    Jv::Obj(enc_user_fields(u))
}

pub open spec fn enc_roster_users(us: Seq<UserV>) -> Seq<Jv>
    decreases us,
{
    if us.len() == 0 {
        Seq::empty()
    } else {
        enc_roster_users(us.drop_last()).push(enc_roster_user(us.last()))
    }
}

/// The payload fields an event writes onto the wire: the typed data first,
/// then the base fields.
pub open spec fn enc_fields(ev: EventV) -> Seq<(Seq<char>, Jv)> {
    match ev {
        EventV::ChatMessage(c) => seq![("data"@, Jv::Str(c.data))] + enc_base_fields(c.base),
        EventV::ServedConnections(r) => seq![
            ("users"@, Jv::Arr(enc_roster_users(r.users))),
            ("connectioncount"@, Jv::Num(dec_digits(r.connection_count as nat))),
        ] + enc_base_fields(r.base),
        EventV::Connected(b) => enc_base_fields(b),
        EventV::UserJoined(b) => enc_base_fields(b),
        EventV::UserQuit(b) => enc_base_fields(b),
        EventV::Broadcast(b) => enc_base_fields(b),
        EventV::Whisper(b) => enc_base_fields(b),
        EventV::WhisperSent(b) => enc_base_fields(b),
        EventV::Mute(b) => enc_base_fields(b),
        EventV::Unmute(b) => enc_base_fields(b),
        EventV::Ban(b) => enc_base_fields(b),
        EventV::Unban(b) => enc_base_fields(b),
        EventV::SubOnly(b) => enc_base_fields(b),
        EventV::Pin(b) => enc_base_fields(b),
        EventV::ErrorMessage(b) => enc_base_fields(b),
        EventV::BeforeEveryMessage(b) => enc_base_fields(b),
        EventV::AfterEveryMessage(b) => enc_base_fields(b),
        EventV::Mention(b) => enc_base_fields(b),
        EventV::WebSocketError(b) => enc_base_fields(b),
        EventV::WebSocketClose(b) => enc_base_fields(b),
        EventV::HandlerError(b) => enc_base_fields(b),
        EventV::Unknown(v) => Seq::empty(),
    }
}

/// The wire token of an event, where it has one. `Unknown` and the purely
/// inbound transport-level variants have none.
pub open spec fn sp_token(ev: EventV) -> Option<Seq<char>> {
    match ev {
        EventV::Connected(_) => Some("ME"@),
        EventV::ServedConnections(_) => Some("NAMES"@),
        EventV::UserJoined(_) => Some("JOIN"@),
        EventV::UserQuit(_) => Some("QUIT"@),
        EventV::Broadcast(_) => Some("BROADCAST"@),
        EventV::ChatMessage(_) => Some("MSG"@),
        EventV::Whisper(_) => Some("PRIVMSG"@),
        EventV::WhisperSent(_) => Some("PRIVMSGSENT"@),
        EventV::Mute(_) => Some("MUTE"@),
        EventV::Unmute(_) => Some("UNMUTE"@),
        EventV::Ban(_) => Some("BAN"@),
        EventV::Unban(_) => Some("UNBAN"@),
        EventV::SubOnly(_) => Some("SUBONLY"@),
        EventV::Pin(_) => Some("PIN"@),
        EventV::ErrorMessage(_) => Some("ERR"@),
        EventV::BeforeEveryMessage(_) => Some("BEFORE_EVERY_MESSAGE"@),
        EventV::AfterEveryMessage(_) => Some("AFTER_EVERY_MESSAGE"@),
        EventV::Mention(_) => Some("MENTION"@),
        EventV::WebSocketError(_) => None,
        EventV::WebSocketClose(_) => None,
        EventV::HandlerError(_) => None,
        EventV::Unknown(_) => None,
    }
}

/// What an event encodes to, if anything: the exact mathematical statement
/// of `encode`.
pub open spec fn sp_encode(ev: EventV) -> Option<Seq<char>> {
    match sp_token(ev) {
        None => None,
        Some(tok) => Some(
            tok + seq![' '] + crate::json_print::print_jv(Jv::Obj(enc_fields(ev))),
        ),
    }
}

} // verus!

verus! {

/// Find the first field with the given key.
#[verifier::loop_isolation(false)]
pub(crate) fn obj_find(fs: &Vec<(String, JsonValue)>, key: &String) -> (r: Option<usize>)
    ensures
        match r {
            Some(ix) => ix < fs@.len() && fs@[ix as int].0@ == key@ && obj_get(
                view_fields(fs@),
                key@,
            ) == Some(fs@[ix as int].1@),
            None => obj_get(view_fields(fs@), key@) is None,
        },
{
    let ghost vf = view_fields(fs@);
    proof {
        crate::json::lemma_view_fields_len(fs@);
        assert forall|j: int| 0 <= j < fs@.len() implies #[trigger] vf[j] == (
        fs@[j].0@,
        fs@[j].1@,
        ) by {
            crate::json::lemma_view_fields_index(fs@, j);
        }
    }
    let mut i: usize = 0;
    proof {
        assert(vf.skip(0) =~= vf);
    }
    while i < fs.len()
        invariant
            i <= fs@.len(),
            obj_get(vf, key@) == obj_get(vf.skip(i as int), key@),
        decreases fs@.len() - i,
    {
        proof {
            assert(vf.skip(i as int).first() == vf[i as int]);
            assert(vf.skip(i as int).drop_first() =~= vf.skip(i + 1));
        }
        if fs[i].0 == *key {
            proof {
                assert(obj_get(vf.skip(i as int), key@) == Some(vf[i as int].1));
            }
            return Some(i);
        }
        i = i + 1;
    }
    proof {
        assert(vf.skip(fs@.len() as int) =~= Seq::<(Seq<char>, Jv)>::empty());
    }
    None
}

/// Knowing one canonical text settles the choice in `sp_u32`.
pub proof fn lemma_sp_u32_some(t: Seq<char>, n: u32)
    requires
        t == dec_digits(n as nat),
    ensures
        sp_u32(t) == Some(n),
{
    assert(exists|m: u32| t == dec_digits(m as nat)) by {
        assert(t == dec_digits(n as nat));
    }
    let m = choose|m: u32| t == dec_digits(m as nat);
    crate::numbers::lemma_dec_digits_inj(m as nat, n as nat);
}

/// Knowing one canonical text settles the choice in `sp_i64`.
pub proof fn lemma_sp_i64_some(t: Seq<char>, n: i64)
    requires
        t == int_digits(n as int),
    ensures
        sp_i64(t) == Some(n),
{
    assert(exists|m: i64| t == int_digits(m as int)) by {
        assert(t == int_digits(n as int));
    }
    let m = choose|m: i64| t == int_digits(m as int);
    lemma_int_digits_inj(m as int, n as int);
}

/// Canonical integer texts are unique.
pub proof fn lemma_int_digits_inj(a: int, b: int)
    requires
        int_digits(a) == int_digits(b),
        -0x8000_0000_0000_0000 <= a < 0x8000_0000_0000_0000,
        -0x8000_0000_0000_0000 <= b < 0x8000_0000_0000_0000,
    ensures
        a == b,
{
    if a >= 0 && b >= 0 {
        crate::numbers::lemma_dec_digits_inj(a as nat, b as nat);
    } else if a < 0 && b < 0 {
        assert(int_digits(a) == seq!['-'] + dec_digits((-a) as nat));
        assert(int_digits(b) == seq!['-'] + dec_digits((-b) as nat));
        assert(dec_digits((-a) as nat) =~= dec_digits((-b) as nat)) by {
            let ta = int_digits(a);
            assert forall|k: int| 0 <= k < dec_digits((-a) as nat).len() implies #[trigger]
                dec_digits((-a) as nat)[k] == dec_digits((-b) as nat)[k] by {
                assert(ta[k + 1] == dec_digits((-a) as nat)[k]);
                assert(ta[k + 1] == dec_digits((-b) as nat)[k]);
            }
        }
        crate::numbers::lemma_dec_digits_inj((-a) as nat, (-b) as nat);
    } else {
        let neg = if a < 0 {
            a
        } else {
            b
        };
        let pos = if a < 0 {
            b
        } else {
            a
        };
        assert(int_digits(neg)[0] == '-');
        crate::numbers::lemma_dec_digits_all_pub(pos as nat);
        assert(crate::text::is_digit(int_digits(pos)[0]));
    }
}

/// Knowing one valid datetime settles the choice in `sp_datetime`.
pub proof fn lemma_sp_datetime_some(t: Seq<char>, d: DateTime)
    requires
        dt_valid(d),
        t == dt_text(d),
    ensures
        sp_datetime(t) == Some(d),
{
    assert(exists|e: DateTime| dt_valid(e) && t == dt_text(e)) by {
        assert(dt_valid(d) && t == dt_text(d));
    }
    let e = choose|e: DateTime| dt_valid(e) && t == dt_text(e);
    crate::datetime::lemma_dt_text_inj(e, d);
}

} // verus!

verus! {

/// Decode an array of JSON strings.
#[verifier::loop_isolation(false)]
fn decode_strings(xs: &Vec<JsonValue>) -> (r: Result<Vec<String>, ()>)
    ensures
        match r {
            Ok(out) => sp_strings(crate::json::view_arr(xs@)) == Some(view_strings(out@)),
            Err(_) => sp_strings(crate::json::view_arr(xs@)) is None,
        },
{
    let ghost va = crate::json::view_arr(xs@);
    proof {
        crate::json::lemma_view_arr_len(xs@);
        assert forall|j: int| 0 <= j < xs@.len() implies #[trigger] va[j] == xs@[j]@ by {
            crate::json::lemma_view_arr_index(xs@, j);
        }
    }
    let mut out: Vec<String> = Vec::new();
    let mut i: usize = 0;
    proof {
        assert(va.skip(0) =~= va);
    }
    while i < xs.len()
        invariant
            i <= xs@.len(),
            out@.len() == i,
            forall|j: int| 0 <= j < i ==> xs@[j]@ is Str,
            view_strings(out@).len() == i,
            forall|j: int| 0 <= j < i ==> #[trigger] view_strings(out@)[j] == va[j]->Str_0,
            match sp_strings(va.skip(i as int)) {
                None => sp_strings(va) is None,
                Some(rest) => sp_strings(va) == Some(view_strings(out@) + rest),
            },
        decreases xs@.len() - i,
    {
        proof {
            assert(va.skip(i as int).first() == va[i as int]);
            assert(va.skip(i as int).drop_first() =~= va.skip(i + 1));
        }
        match &xs[i] {
            JsonValue::Str(s) => {
                let ghost old_out = out@;
                out.push(s.clone());
                proof {
                    crate::text::lemma_view_strings_len(out@);
                    assert(out@.drop_last() =~= old_out);
                    assert(view_strings(out@) == view_strings(old_out).push(s@));
                    assert forall|j: int| 0 <= j < i + 1 implies #[trigger] view_strings(out@)[j]
                        == va[j]->Str_0 by {
                        if j < i {
                            assert(view_strings(old_out)[j] == va[j]->Str_0);
                        } else {
                            assert(xs@[i as int]@ == Jv::Str(s@));
                        }
                    }
                    if sp_strings(va.skip(i + 1)) is Some {
                        let rest2 = sp_strings(va.skip(i + 1)).unwrap();
                        assert(sp_strings(va.skip(i as int)) == Some(
                            (seq![va[i as int]->Str_0] + rest2),
                        ));
                        assert(view_strings(old_out) + (seq![va[i as int]->Str_0] + rest2)
                            =~= view_strings(out@) + rest2);
                    }
                }
                i = i + 1;
            },
            _ => {
                proof {
                    assert(sp_strings(va.skip(i as int)) is None);
                }
                return Err(());
            },
        }
    }
    proof {
        assert(va.skip(xs@.len() as int) =~= Seq::<Jv>::empty());
        assert(sp_strings(Seq::<Jv>::empty()) == Some(Seq::<Seq<char>>::empty()));
        assert(view_strings(out@) + Seq::<Seq<char>>::empty() =~= view_strings(out@));
    }
    Ok(out)
}

} // verus!

verus! {

/// Decode the user lifted from a payload.
fn decode_user(fs: &Vec<(String, JsonValue)>) -> (r: Result<Option<User>, ()>)
    ensures
        match r {
            Ok(ou) => sp_user(view_fields(fs@)) == Some(
                match ou {
                    Some(u) => Some(u@),
                    None => None::<UserV>,
                },
            ),
            Err(_) => sp_user(view_fields(fs@)) is None,
        },
{
    let k_nick = String::from_str("nick");
    let k_features = String::from_str("features");
    let k_id = String::from_str("id");
    let k_created = String::from_str("createdDate");
    match obj_find(fs, &k_nick) {
        None => {
            let f = obj_find(fs, &k_features);
            let i = obj_find(fs, &k_id);
            let c = obj_find(fs, &k_created);
            match (f, i, c) {
                (None, None, None) => Ok(None),
                _ => Err(()),
            }
        },
        Some(ix) => {
            let nick: String = match &fs[ix].1 {
                JsonValue::Str(s) => s.clone(),
                _ => {
                    return Err(());
                },
            };
            let features: Vec<String> = match obj_find(fs, &k_features) {
                Some(fx) => match &fs[fx].1 {
                    JsonValue::Arr(xs) => match decode_strings(xs) {
                        Ok(out) => out,
                        Err(_) => {
                            return Err(());
                        },
                    },
                    _ => {
                        return Err(());
                    },
                },
                None => {
                    return Err(());
                },
            };
            let id: Option<u32> = match obj_find(fs, &k_id) {
                None => None,
                Some(nx) => match &fs[nx].1 {
                    JsonValue::Num(t) => {
                        let cs = crate::text::str_to_chars(t.as_str());
                        match crate::numbers::parse_u32_digits(&cs) {
                            Some(n) => {
                                proof {
                                    lemma_sp_u32_some(t@, n);
                                }
                                Some(n)
                            },
                            None => {
                                proof {
                                    assert(sp_u32(t@) is None) by {
                                        if exists|n: u32| t@ == dec_digits(n as nat) {
                                            let w = choose|n: u32| t@ == dec_digits(n as nat);
                                            assert(t@ != dec_digits(w as nat));
                                        }
                                    }
                                }
                                return Err(());
                            },
                        }
                    },
                    _ => {
                        return Err(());
                    },
                },
            };
            let created_date: Option<DateTime> = match obj_find(fs, &k_created) {
                None => None,
                Some(cx) => match &fs[cx].1 {
                    JsonValue::Str(t) => {
                        let cs = crate::text::str_to_chars(t.as_str());
                        match DateTime::parse_text(&cs) {
                            Some(d) => {
                                proof {
                                    lemma_sp_datetime_some(t@, d);
                                }
                                Some(d)
                            },
                            None => {
                                proof {
                                    assert(sp_datetime(t@) is None) by {
                                        if exists|d: DateTime| dt_valid(d) && t@ == dt_text(d) {
                                            let w = choose|d: DateTime|
                                                dt_valid(d) && t@ == dt_text(d);
                                            assert(dt_valid(w) ==> t@ != dt_text(w));
                                        }
                                    }
                                }
                                return Err(());
                            },
                        }
                    },
                    _ => {
                        return Err(());
                    },
                },
            };
            let u = User { id, nick, features, created_date };
            Ok(Some(u))
        },
    }
}

/// Decode the timestamp lifted from a payload.
fn decode_timestamp(fs: &Vec<(String, JsonValue)>) -> (r: Result<Option<i64>, ()>)
    ensures
        match r {
            Ok(ts) => sp_timestamp(view_fields(fs@)) == Some(ts),
            Err(_) => sp_timestamp(view_fields(fs@)) is None,
        },
{
    let k_ts = String::from_str("timestamp");
    match obj_find(fs, &k_ts) {
        None => Ok(None),
        Some(tx) => match &fs[tx].1 {
            JsonValue::Num(t) => {
                let cs = crate::text::str_to_chars(t.as_str());
                match crate::numbers::parse_i64_digits(&cs) {
                    Some(n) => {
                        proof {
                            lemma_sp_i64_some(t@, n);
                        }
                        Ok(Some(n))
                    },
                    None => {
                        proof {
                            assert(sp_i64(t@) is None) by {
                                if exists|n: i64| t@ == int_digits(n as int) {
                                    let w = choose|n: i64| t@ == int_digits(n as int);
                                    assert(t@ != int_digits(w as int));
                                }
                            }
                        }
                        Err(())
                    },
                }
            },
            _ => Err(()),
        },
    }
}

/// Whether the codec lifts this key out of a payload of this shape.
fn check_recognized(k: &String, kind: &BodyKind) -> (r: bool)
    ensures
        r == recognized_key(k@, *kind),
{
    let k_nick = String::from_str("nick");
    let k_features = String::from_str("features");
    let k_id = String::from_str("id");
    let k_created = String::from_str("createdDate");
    let k_ts = String::from_str("timestamp");
    if *k == k_nick || *k == k_features || *k == k_id || *k == k_created || *k == k_ts {
        return true;
    }
    match kind {
        BodyKind::Plain => false,
        BodyKind::Chat => {
            let k_data = String::from_str("data");
            *k == k_data
        },
        BodyKind::Roster => {
            let k_users = String::from_str("users");
            let k_cc = String::from_str("connectioncount");
            *k == k_users || *k == k_cc
        },
    }
}

/// Collect the open bag: the fields the codec does not lift.
#[verifier::loop_isolation(false)]
fn decode_extra(fs: &Vec<(String, JsonValue)>, kind: &BodyKind) -> (out: Vec<(String, JsonValue)>)
    ensures
        view_fields(out@) == unrecognized(view_fields(fs@), *kind),
{
    let ghost vf = view_fields(fs@);
    proof {
        crate::json::lemma_view_fields_len(fs@);
        assert forall|j: int| 0 <= j < fs@.len() implies #[trigger] vf[j] == (
        fs@[j].0@,
        fs@[j].1@,
        ) by {
            crate::json::lemma_view_fields_index(fs@, j);
        }
    }
    let mut out: Vec<(String, JsonValue)> = Vec::new();
    let mut i: usize = 0;
    proof {
        assert(vf.take(0) =~= Seq::<(Seq<char>, Jv)>::empty());
        assert(view_fields(out@) =~= unrecognized(vf.take(0), *kind));
    }
    while i < fs.len()
        invariant
            i <= fs@.len(),
            view_fields(out@) == unrecognized(vf.take(i as int), *kind),
        decreases fs@.len() - i,
    {
        proof {
            assert(vf.take(i + 1).drop_last() =~= vf.take(i as int));
            assert(vf.take(i + 1).last() == vf[i as int]);
        }
        if !check_recognized(&fs[i].0, kind) {
            let ghost old_out = out@;
            let k = fs[i].0.clone();
            let v = crate::json::clone_json(&fs[i].1);
            out.push((k, v));
            proof {
                crate::json::lemma_view_fields_len(out@);
                assert(out@.drop_last() =~= old_out);
                assert(view_fields(out@) == view_fields(old_out).push((k@, v@)));
                assert((k@, v@) == vf[i as int]);
            }
        }
        i = i + 1;
    }
    proof {
        assert(vf.take(fs@.len() as int) =~= vf);
    }
    out
}

/// Decode the base data of a payload of the given shape.
fn decode_base(fs: &Vec<(String, JsonValue)>, kind: &BodyKind) -> (r: Result<BaseEventData, ()>)
    ensures
        match r {
            Ok(b) => sp_base(view_fields(fs@), *kind) == Some(base_view(b)),
            Err(_) => sp_base(view_fields(fs@), *kind) is None,
        },
{
    let user = match decode_user(fs) {
        Ok(u) => u,
        Err(_) => {
            return Err(());
        },
    };
    let timestamp = match decode_timestamp(fs) {
        Ok(t) => t,
        Err(_) => {
            return Err(());
        },
    };
    let extra = decode_extra(fs, kind);
    let b = BaseEventData { user, timestamp, extra };
    Ok(b)
}

} // verus!

verus! {

/// Decode one roster entry: a payload object that is all user.
#[verifier::loop_isolation(false)]
fn decode_roster_user(v: &JsonValue) -> (r: Result<User, ()>)
    ensures
        match r {
            Ok(u) => sp_roster_user(v@) == Some(u@),
            Err(_) => sp_roster_user(v@) is None,
        },
{
    proof {
        crate::json::lemma_view_unfold(*v);
    }
    match v {
        JsonValue::Obj(fs) => match decode_user(fs) {
            Ok(Some(u)) => Ok(u),
            _ => Err(()),
        },
        _ => Err(()),
    }
}

/// Decode the users of a roster payload.
#[verifier::loop_isolation(false)]
fn decode_roster_users(xs: &Vec<JsonValue>) -> (r: Result<Vec<User>, ()>)
    ensures
        match r {
            Ok(out) => sp_roster_users(crate::json::view_arr(xs@)) == Some(view_users(out@)),
            Err(_) => sp_roster_users(crate::json::view_arr(xs@)) is None,
        },
{
    let ghost va = crate::json::view_arr(xs@);
    proof {
        crate::json::lemma_view_arr_len(xs@);
        assert forall|j: int| 0 <= j < xs@.len() implies #[trigger] va[j] == xs@[j]@ by {
            crate::json::lemma_view_arr_index(xs@, j);
        }
    }
    let mut out: Vec<User> = Vec::new();
    let mut i: usize = 0;
    proof {
        assert(va.skip(0) =~= va);
        assert(view_users(out@) =~= Seq::<UserV>::empty());
    }
    while i < xs.len()
        invariant
            i <= xs@.len(),
            out@.len() == i,
            view_users(out@).len() == i,
            match sp_roster_users(va.skip(i as int)) {
                None => sp_roster_users(va) is None,
                Some(rest) => sp_roster_users(va) == Some(view_users(out@) + rest),
            },
        decreases xs@.len() - i,
    {
        proof {
            assert(va.skip(i as int).first() == va[i as int]);
            assert(va.skip(i as int).drop_first() =~= va.skip(i + 1));
        }
        match decode_roster_user(&xs[i]) {
            Ok(u) => {
                let ghost old_out = out@;
                let ghost uv = u@;
                out.push(u);
                proof {
                    lemma_view_users_len(out@);
                    assert(out@.drop_last() =~= old_out);
                    assert(view_users(out@) == view_users(old_out).push(uv));
                    if sp_roster_users(va.skip(i + 1)) is Some {
                        let rest2 = sp_roster_users(va.skip(i + 1)).unwrap();
                        assert(sp_roster_users(va.skip(i as int)) == Some((seq![uv] + rest2)));
                        assert(view_users(old_out) + (seq![uv] + rest2) =~= view_users(out@)
                            + rest2);
                    }
                }
                i = i + 1;
            },
            Err(_) => {
                proof {
                    assert(sp_roster_users(va.skip(i as int)) is None);
                }
                return Err(());
            },
        }
    }
    proof {
        assert(va.skip(xs@.len() as int) =~= Seq::<Jv>::empty());
        assert(view_users(out@) + Seq::<UserV>::empty() =~= view_users(out@));
    }
    Ok(out)
}

pub proof fn lemma_view_users_len(xs: Seq<User>)
    ensures
        view_users(xs).len() == xs.len(),
    decreases xs,
{
    if xs.len() > 0 {
        lemma_view_users_len(xs.drop_last());
        assert(view_users(xs) == view_users(xs.drop_last()).push(xs.last()@));
    }
}

} // verus!

verus! {

/// Decode one wire line into its event.
///
/// `Ok` exactly on the lines `sp_decode` accepts, and the event is the one
/// it names; every rejected line comes back inside `DecodeError`.
#[verifier::loop_isolation(false)]
#[verifier::rlimit(100)]
#[verifier::spinoff_prover]
pub fn decode(line: &str) -> (r: Result<Event, ChatError>)
    ensures
        match r {
            Ok(ev) => sp_decode(line@) == Some(ev_view(ev)),
            Err(e) => sp_decode(line@) is None && (e matches ChatError::DecodeError(raw)
                && raw@ == line@),
        },
{
    let cs = crate::text::str_to_chars(line);
    // Split at the first space.
    let mut p: usize = 0;
    while p < cs.len() && cs[p] != ' '
        invariant
            p <= cs@.len(),
            find_space(cs@, 0) == find_space(cs@, p as int),
        decreases cs@.len() - p,
    {
        proof {
            assert(find_space(cs@, p as int) == find_space(cs@, p + 1));
        }
        p = p + 1;
    }
    proof {
        assert(find_space(cs@, p as int) == p as int);
    }
    if p >= cs.len() {
        proof {
            assert(sp_split(line@) is None);
        }
        return Err(ChatError::DecodeError(line.to_owned()));
    }
    let tok_cs = crate::json_parse::copy_range(&cs, 0, p);
    let pay_cs = crate::json_parse::copy_range(&cs, p + 1, cs.len());
    let tok = crate::text::chars_to_string(&tok_cs);
    proof {
        assert(sp_split(line@) == Some((tok_cs@, pay_cs@)));
    }
    // `null` is read as the empty object.
    let is_null_lit = pay_cs.len() == 4 && pay_cs[0] == 'n' && pay_cs[1] == 'u' && pay_cs[2] == 'l'
        && pay_cs[3] == 'l';
    proof {
        reveal_strlit("null");
        reveal_strlit("{}");
        if is_null_lit {
            assert(pay_cs@ =~= "null"@);
        } else {
            if pay_cs@ == "null"@ {
                assert(pay_cs@.len() == 4);
                assert(pay_cs@[0] == 'n' && pay_cs@[1] == 'u' && pay_cs@[2] == 'l' && pay_cs@[3]
                    == 'l');
            }
        }
    }
    let norm: Vec<char> = if is_null_lit {
        let mut w: Vec<char> = Vec::new();
        w.push('{');
        w.push('}');
        proof {
            assert(w@ =~= "{}"@);
        }
        w
    } else {
        pay_cs
    };
    proof {
        assert(norm@ == sp_normalize(sp_split(line@).unwrap().1));
    }
    // Parse the payload object.
    let v = match crate::json_parse::parse_chars(&norm) {
        Some(v) => v,
        None => {
            proof {
                assert(sp_decode(line@) is None);
            }
            return Err(ChatError::DecodeError(line.to_owned()));
        },
    };
    proof {
        crate::json::lemma_view_unfold(v);
    }
    let fs = match v {
        JsonValue::Obj(fs) => fs,
        _ => {
            proof {
                assert(sp_decode(line@) is None);
            }
            return Err(ChatError::DecodeError(line.to_owned()));
        },
    };
    let ghost vf = view_fields(fs@);
    proof {
        assert(sp_decode(line@) == sp_dispatch(tok@, vf));
    }
    let t = token_of(&tok);
    match decode_tagged(t, fs) {
        Ok(ev) => Ok(ev),
        Err(_) => Err(ChatError::DecodeError(line.to_owned())),
    }
}

/// Which token a word is.
#[verifier::rlimit(100)]
fn token_of(tok: &String) -> (t: Tok)
    ensures
        t == sp_tok(tok@),
{
    if *tok == String::from_str("ME") {
        Tok::Me
    } else if *tok == String::from_str("NAMES") {
        Tok::Names
    } else if *tok == String::from_str("JOIN") {
        Tok::Join
    } else if *tok == String::from_str("QUIT") {
        Tok::Quit
    } else if *tok == String::from_str("BROADCAST") {
        Tok::Broadcast
    } else if *tok == String::from_str("MSG") {
        Tok::Msg
    } else if *tok == String::from_str("PRIVMSG") {
        Tok::Privmsg
    } else if *tok == String::from_str("PRIVMSGSENT") {
        Tok::Privmsgsent
    } else if *tok == String::from_str("MUTE") {
        Tok::Mute
    } else if *tok == String::from_str("UNMUTE") {
        Tok::Unmute
    } else if *tok == String::from_str("BAN") {
        Tok::Ban
    } else if *tok == String::from_str("UNBAN") {
        Tok::Unban
    } else if *tok == String::from_str("SUBONLY") {
        Tok::Subonly
    } else if *tok == String::from_str("PIN") {
        Tok::Pin
    } else if *tok == String::from_str("ERR") {
        Tok::ErrTok
    } else if *tok == String::from_str("BEFORE_EVERY_MESSAGE") {
        Tok::BeforeEvery
    } else if *tok == String::from_str("AFTER_EVERY_MESSAGE") {
        Tok::AfterEvery
    } else if *tok == String::from_str("MENTION") {
        Tok::Mention
    } else if *tok == String::from_str("WS_ERROR") {
        Tok::WsError
    } else if *tok == String::from_str("WS_CLOSE") {
        Tok::WsClose
    } else if *tok == String::from_str("HANDLER_ERROR") {
        Tok::HandlerErr
    } else {
        Tok::Other
    }
}

/// Decode the roster payload of a `NAMES` event.
fn decode_roster_payload(fs: &Vec<(String, JsonValue)>) -> (r: Result<
    EventData<ServedConnectionsData>,
    (),
>)
    ensures
        match r {
            Ok(d) => sp_roster(view_fields(fs@)) == Some(
                RosterV {
                    users: view_users(d.data.users@),
                    connection_count: d.data.connection_count,
                    base: base_view(d.base),
                },
            ),
            Err(_) => sp_roster(view_fields(fs@)) is None,
        },
{
    let b = match decode_base(fs, &BodyKind::Roster) {
        Ok(b) => b,
        Err(_) => {
            return Err(());
        },
    };
    let k_users = String::from_str("users");
    let k_cc = String::from_str("connectioncount");
    let users = match obj_find(fs, &k_users) {
        Some(ux) => match &fs[ux].1 {
            JsonValue::Arr(xs) => match decode_roster_users(xs) {
                Ok(us) => us,
                Err(_) => {
                    return Err(());
                },
            },
            _ => {
                return Err(());
            },
        },
        None => {
            return Err(());
        },
    };
    let cc = match obj_find(fs, &k_cc) {
        Some(cx) => match &fs[cx].1 {
            JsonValue::Num(t) => {
                let tcs = crate::text::str_to_chars(t.as_str());
                match crate::numbers::parse_u32_digits(&tcs) {
                    Some(n) => {
                        proof {
                            lemma_sp_u32_some(t@, n);
                        }
                        n
                    },
                    None => {
                        proof {
                            assert(sp_u32(t@) is None) by {
                                if exists|n: u32| t@ == dec_digits(n as nat) {
                                    let w = choose|n: u32| t@ == dec_digits(n as nat);
                                    assert(t@ != dec_digits(w as nat));
                                }
                            }
                        }
                        return Err(());
                    },
                }
            },
            _ => {
                return Err(());
            },
        },
        None => {
            return Err(());
        },
    };
    Ok(EventData { data: ServedConnectionsData { users, connection_count: cc }, base: b })
}

/// Decode the chat payload of a `MSG` event.
fn decode_chat_payload(fs: &Vec<(String, JsonValue)>) -> (r: Result<EventData<ChatMessageData>, ()>)
    ensures
        match r {
            Ok(d) => sp_chat(view_fields(fs@)) == Some(
                ChatV { data: d.data.data@, base: base_view(d.base) },
            ),
            Err(_) => sp_chat(view_fields(fs@)) is None,
        },
{
    let b = match decode_base(fs, &BodyKind::Chat) {
        Ok(b) => b,
        Err(_) => {
            return Err(());
        },
    };
    let k_data = String::from_str("data");
    match obj_find(fs, &k_data) {
        Some(dx) => match &fs[dx].1 {
            JsonValue::Str(text) => Ok(
                EventData { data: ChatMessageData { data: text.clone() }, base: b },
            ),
            _ => Err(()),
        },
        None => Err(()),
    }
}

/// Build the plain-bodied variant a token picks.
#[verifier::rlimit(100)]
fn plain_event(t: Tok, b: BaseEventData) -> (ev: Event)
    requires
        !(t is Names),
        !(t is Msg),
        !(t is Other),
    ensures
        ev_view(ev) == plain_eventv(t, base_view(b)),
{
    match t {
        Tok::Me => Event::Connected(b),
        Tok::Join => Event::UserJoined(b),
        Tok::Quit => Event::UserQuit(b),
        Tok::Broadcast => Event::Broadcast(b),
        Tok::Privmsg => Event::Whisper(b),
        Tok::Privmsgsent => Event::WhisperSent(b),
        Tok::Mute => Event::Mute(b),
        Tok::Unmute => Event::Unmute(b),
        Tok::Ban => Event::Ban(b),
        Tok::Unban => Event::Unban(b),
        Tok::Subonly => Event::SubOnly(b),
        Tok::Pin => Event::Pin(b),
        Tok::ErrTok => Event::ErrorMessage(b),
        Tok::BeforeEvery => Event::BeforeEveryMessage(b),
        Tok::AfterEvery => Event::AfterEveryMessage(b),
        Tok::Mention => Event::Mention(b),
        Tok::WsError => Event::WebSocketError(b),
        Tok::WsClose => Event::WebSocketClose(b),
        _ => Event::HandlerError(b),
    }
}

/// Fill the variant a token picks from the payload fields.
#[verifier::rlimit(100)]
#[verifier::spinoff_prover]
fn decode_tagged(t: Tok, fs: Vec<(String, JsonValue)>) -> (r: Result<Event, ()>)
    ensures
        match r {
            Ok(ev) => sp_dispatch_tok(t, view_fields(fs@)) == Some(ev_view(ev)),
            Err(_) => sp_dispatch_tok(t, view_fields(fs@)) is None,
        },
{
    match t {
        Tok::Names => match decode_roster_payload(&fs) {
            Ok(d) => Ok(Event::ServedConnections(d)),
            Err(_) => Err(()),
        },
        Tok::Msg => match decode_chat_payload(&fs) {
            Ok(d) => Ok(Event::ChatMessage(d)),
            Err(_) => Err(()),
        },
        Tok::Other => {
            let ev = Event::Unknown(
                EventData {
                    data: JsonValue::Obj(fs),
                    base: BaseEventData { user: None, timestamp: None, extra: Vec::new() },
                },
            );
            Ok(ev)
        },
        _ => match decode_base(&fs, &BodyKind::Plain) {
            Ok(b) => Ok(plain_event(t, b)),
            Err(_) => Err(()),
        },
    }
}

} // verus!



verus! {

// ---------------------------------------------------------------------------
// Encoding.
// ---------------------------------------------------------------------------
/// A user the library can write back: any datetime it carries is a real one.
pub open spec fn user_wf(u: UserV) -> bool {
    match u.created_date {
        Some(d) => dt_valid(d),
        None => true,
    }
}

pub open spec fn base_wf(b: BaseV) -> bool {
    match b.user {
        Some(u) => user_wf(u),
        None => true,
    }
}

pub open spec fn users_wf(us: Seq<UserV>) -> bool {
    forall|i: int| 0 <= i < us.len() ==> user_wf(#[trigger] us[i])
}

/// An event the library can write back onto the wire.
pub open spec fn ev_wf(ev: EventV) -> bool {
    match ev {
        EventV::ServedConnections(r) => base_wf(r.base) && users_wf(r.users),
        EventV::ChatMessage(c) => base_wf(c.base),
        EventV::Connected(b) => base_wf(b),
        EventV::UserJoined(b) => base_wf(b),
        EventV::UserQuit(b) => base_wf(b),
        EventV::Broadcast(b) => base_wf(b),
        EventV::Whisper(b) => base_wf(b),
        EventV::WhisperSent(b) => base_wf(b),
        EventV::Mute(b) => base_wf(b),
        EventV::Unmute(b) => base_wf(b),
        EventV::Ban(b) => base_wf(b),
        EventV::Unban(b) => base_wf(b),
        EventV::SubOnly(b) => base_wf(b),
        EventV::Pin(b) => base_wf(b),
        EventV::ErrorMessage(b) => base_wf(b),
        EventV::BeforeEveryMessage(b) => base_wf(b),
        EventV::AfterEveryMessage(b) => base_wf(b),
        EventV::Mention(b) => base_wf(b),
        EventV::WebSocketError(b) => base_wf(b),
        EventV::WebSocketClose(b) => base_wf(b),
        EventV::HandlerError(b) => base_wf(b),
        EventV::Unknown(_) => true,
    }
}

/// String texts as JSON string values, executably.
fn strings_to_values(xs: &Vec<String>) -> (out: Vec<JsonValue>)
    ensures
        crate::json::view_arr(out@) == str_values(view_strings(xs@)),
{
    let mut out: Vec<JsonValue> = Vec::new();
    let mut i: usize = 0;
    proof {
        crate::text::lemma_view_strings_len(xs@);
        assert(crate::json::view_arr(out@) =~= str_values(view_strings(xs@.take(0))));
        assert(view_strings(xs@.take(0)) =~= Seq::<Seq<char>>::empty());
    }
    while i < xs.len()
        invariant
            i <= xs@.len(),
            crate::json::view_arr(out@) == str_values(view_strings(xs@.take(i as int))),
        decreases xs@.len() - i,
    {
        let ghost old_out = out@;
        let v = JsonValue::Str(xs[i].clone());
        proof {
            crate::json::lemma_view_unfold(v);
        }
        out.push(v);
        proof {
            assert(out@.drop_last() =~= old_out);
            assert(crate::json::view_arr(out@) == crate::json::view_arr(out@.drop_last()).push(
                out@.last()@,
            ));
            assert(crate::json::view_arr(out@) == crate::json::view_arr(old_out).push(
                Jv::Str(xs@[i as int]@),
            ));
            assert(xs@.take(i + 1).drop_last() =~= xs@.take(i as int));
            assert(xs@.take(i + 1).last() == xs@[i as int]);
            assert(view_strings(xs@.take(i + 1)) == view_strings(xs@.take(i as int)).push(
                xs@[i as int]@,
            ));
            let vs = view_strings(xs@.take(i + 1));
            assert(vs.drop_last() =~= view_strings(xs@.take(i as int)));
            assert(vs.last() == xs@[i as int]@);
            assert(str_values(vs) == str_values(view_strings(xs@.take(i as int))).push(
                Jv::Str(xs@[i as int]@),
            ));
        }
        i = i + 1;
    }
    proof {
        assert(xs@.take(xs@.len() as int) =~= xs@);
    }
    out
}

/// The fields a user writes back onto the wire, executably.
fn encode_user_fields_exec(u: &User) -> (out: Vec<(String, JsonValue)>)
    requires
        user_wf(u@),
    ensures
        view_fields(out@) == enc_user_fields(u@),
{
    let mut out: Vec<(String, JsonValue)> = Vec::new();
    proof {
        assert(view_fields(out@) =~= Seq::<(Seq<char>, Jv)>::empty());
    }
    let nickv = JsonValue::Str(u.nick.clone());
    proof {
        crate::json::lemma_view_unfold(nickv);
    }
    let ghost s0 = out@;
    out.push((String::from_str("nick"), nickv));
    proof {
        assert(out@.drop_last() =~= s0);
        assert(view_fields(out@) == view_fields(s0).push(("nick"@, Jv::Str(u.nick@))));
    }
    match u.id {
        Some(n) => {
            let txt = crate::numbers::u64_to_text(n as u64);
            let idv = JsonValue::Num(txt);
            proof {
                crate::json::lemma_view_unfold(idv);
            }
            let ghost s1 = out@;
            out.push((String::from_str("id"), idv));
            proof {
                assert(out@.drop_last() =~= s1);
                assert(view_fields(out@) == view_fields(s1).push(
                    ("id"@, Jv::Num(dec_digits(n as nat))),
                ));
            }
        },
        None => {},
    }
    let featv = JsonValue::Arr(strings_to_values(&u.features));
    proof {
        crate::json::lemma_view_unfold(featv);
    }
    let ghost s2 = out@;
    out.push((String::from_str("features"), featv));
    proof {
        assert(out@.drop_last() =~= s2);
        assert(view_fields(out@) == view_fields(s2).push(
            ("features"@, Jv::Arr(str_values(view_strings(u.features@)))),
        ));
    }
    match &u.created_date {
        Some(d) => {
            let cdv = JsonValue::Str(d.to_text());
            proof {
                crate::json::lemma_view_unfold(cdv);
            }
            let ghost s3 = out@;
            out.push((String::from_str("createdDate"), cdv));
            proof {
                assert(out@.drop_last() =~= s3);
                assert(view_fields(out@) == view_fields(s3).push(
                    ("createdDate"@, Jv::Str(dt_text(*d))),
                ));
            }
        },
        None => {},
    }
    proof {
        assert(view_fields(out@) =~= enc_user_fields(u@));
    }
    out
}

} // verus!

verus! {

/// The payload fields the base data writes onto the wire, appended after any
/// already-built data fields.
fn encode_base_push(out: &mut Vec<(String, JsonValue)>, b: &BaseEventData)
    requires
        base_wf(base_view(*b)),
    ensures
        view_fields(final(out)@) == view_fields(old(out)@) + enc_base_fields(base_view(*b)),
{
    let ghost s0 = out@;
    match &b.user {
        Some(u) => {
            let mut uf = encode_user_fields_exec(u);
            let ghost ufv = uf@;
            out.append(&mut uf);
            proof {
                crate::json::lemma_view_fields_app(s0, ufv);
                assert(out@ =~= s0 + ufv);
            }
        },
        None => {},
    }
    let ghost s1 = out@;
    proof {
        assert(view_fields(s1) == view_fields(s0) + (match base_view(*b).user {
            Some(u) => enc_user_fields(u),
            None => Seq::<(Seq<char>, Jv)>::empty(),
        })) by {
            if b.user is None {
                assert(view_fields(s0) + Seq::<(Seq<char>, Jv)>::empty() =~= view_fields(s0));
            }
        }
    }
    match b.timestamp {
        Some(ts) => {
            let txt = crate::numbers::i64_to_text(ts);
            let tsv = JsonValue::Num(txt);
            proof {
                crate::json::lemma_view_unfold(tsv);
            }
            out.push((String::from_str("timestamp"), tsv));
            proof {
                assert(out@.drop_last() =~= s1);
                assert(view_fields(out@) == view_fields(s1).push(
                    ("timestamp"@, Jv::Num(int_digits(ts as int))),
                ));
            }
        },
        None => {},
    }
    let ghost s2 = out@;
    proof {
        assert(view_fields(s2) == view_fields(s1) + (match base_view(*b).timestamp {
            Some(ts) => seq![("timestamp"@, Jv::Num(int_digits(ts as int)))],
            None => Seq::<(Seq<char>, Jv)>::empty(),
        })) by {
            match base_view(*b).timestamp {
                Some(ts) => {
                    assert(view_fields(s2) =~= view_fields(s1) + seq![
                        ("timestamp"@, Jv::Num(int_digits(ts as int))),
                    ]);
                },
                None => {
                    assert(view_fields(s1) + Seq::<(Seq<char>, Jv)>::empty() =~= view_fields(s1));
                },
            }
        }
    }
    // The open bag.
    let mut i: usize = 0;
    proof {
        assert(view_fields(b.extra@.take(0)) =~= Seq::<(Seq<char>, Jv)>::empty());
        assert(view_fields(out@) =~= view_fields(s2) + view_fields(b.extra@.take(0)));
        crate::json::lemma_view_fields_len(b.extra@);
    }
    while i < b.extra.len()
        invariant
            i <= b.extra@.len(),
            view_fields(out@) == view_fields(s2) + view_fields(b.extra@.take(i as int)),
        decreases b.extra@.len() - i,
    {
        let k = b.extra[i].0.clone();
        let v = crate::json::clone_json(&b.extra[i].1);
        let ghost s3 = out@;
        out.push((k, v));
        proof {
            assert(out@.drop_last() =~= s3);
            assert(view_fields(out@) == view_fields(s3).push((k@, v@)));
            assert(b.extra@.take(i + 1).drop_last() =~= b.extra@.take(i as int));
            assert(b.extra@.take(i + 1).last() == b.extra@[i as int]);
            assert(view_fields(b.extra@.take(i + 1)) == view_fields(b.extra@.take(i as int)).push(
                (b.extra@[i as int].0@, b.extra@[i as int].1@),
            ));
            assert(view_fields(s3).push((k@, v@)) =~= view_fields(s2) + view_fields(
                b.extra@.take(i + 1),
            ));
        }
        i = i + 1;
    }
    proof {
        assert(b.extra@.take(b.extra@.len() as int) =~= b.extra@);
        assert(view_fields(out@) =~= view_fields(s0) + enc_base_fields(base_view(*b)));
    }
}

/// Users written back as roster entries, executably.
#[verifier::loop_isolation(false)]
fn encode_roster_users_exec(us: &Vec<User>) -> (out: Vec<JsonValue>)
    requires
        users_wf(view_users(us@)),
    ensures
        crate::json::view_arr(out@) == enc_roster_users(view_users(us@)),
{
    proof {
        lemma_view_users_len(us@);
        assert forall|j: int| 0 <= j < us@.len() implies #[trigger] view_users(us@)[j] == us@[j]@
            by {
            lemma_view_users_index(us@, j);
        }
    }
    let mut out: Vec<JsonValue> = Vec::new();
    let mut i: usize = 0;
    proof {
        assert(view_users(us@.take(0)) =~= Seq::<UserV>::empty());
        assert(crate::json::view_arr(out@) =~= enc_roster_users(view_users(us@.take(0))));
    }
    while i < us.len()
        invariant
            i <= us@.len(),
            crate::json::view_arr(out@) == enc_roster_users(view_users(us@.take(i as int))),
        decreases us@.len() - i,
    {
        proof {
            assert(view_users(us@)[i as int] == us@[i as int]@);
            assert(user_wf(us@[i as int]@));
        }
        let flds = encode_user_fields_exec(&us[i]);
        let v = JsonValue::Obj(flds);
        proof {
            crate::json::lemma_view_unfold(v);
        }
        let ghost s0 = out@;
        out.push(v);
        proof {
            assert(out@.drop_last() =~= s0);
            assert(crate::json::view_arr(out@) == crate::json::view_arr(s0).push(
                enc_roster_user(us@[i as int]@),
            ));
            assert(us@.take(i + 1).drop_last() =~= us@.take(i as int));
            assert(us@.take(i + 1).last() == us@[i as int]);
            assert(view_users(us@.take(i + 1)) == view_users(us@.take(i as int)).push(
                us@[i as int]@,
            ));
            let vs = view_users(us@.take(i + 1));
            assert(vs.drop_last() =~= view_users(us@.take(i as int)));
            assert(enc_roster_users(vs) == enc_roster_users(view_users(us@.take(i as int))).push(
                enc_roster_user(us@[i as int]@),
            ));
        }
        i = i + 1;
    }
    proof {
        assert(us@.take(us@.len() as int) =~= us@);
    }
    out
}

pub proof fn lemma_view_users_index(xs: Seq<User>, i: int)
    requires
        0 <= i < xs.len(),
    ensures
        view_users(xs).len() == xs.len(),
        view_users(xs)[i] == xs[i]@,
    decreases xs,
{
    lemma_view_users_len(xs);
    lemma_view_users_len(xs.drop_last());
    assert(view_users(xs) == view_users(xs.drop_last()).push(xs.last()@));
    if i < xs.len() - 1 {
        lemma_view_users_index(xs.drop_last(), i);
        assert(xs.drop_last()[i] == xs[i]);
    } else {
        assert(xs[i] == xs.last());
    }
}

} // verus!

verus! {

/// The wire word of each token.
pub open spec fn tok_text(t: Tok) -> Seq<char> {
    match t {
        Tok::Me => "ME"@,
        Tok::Names => "NAMES"@,
        Tok::Join => "JOIN"@,
        Tok::Quit => "QUIT"@,
        Tok::Broadcast => "BROADCAST"@,
        Tok::Msg => "MSG"@,
        Tok::Privmsg => "PRIVMSG"@,
        Tok::Privmsgsent => "PRIVMSGSENT"@,
        Tok::Mute => "MUTE"@,
        Tok::Unmute => "UNMUTE"@,
        Tok::Ban => "BAN"@,
        Tok::Unban => "UNBAN"@,
        Tok::Subonly => "SUBONLY"@,
        Tok::Pin => "PIN"@,
        Tok::ErrTok => "ERR"@,
        Tok::BeforeEvery => "BEFORE_EVERY_MESSAGE"@,
        Tok::AfterEvery => "AFTER_EVERY_MESSAGE"@,
        Tok::Mention => "MENTION"@,
        Tok::WsError => "WS_ERROR"@,
        Tok::WsClose => "WS_CLOSE"@,
        Tok::HandlerErr => "HANDLER_ERROR"@,
        Tok::Other => Seq::empty(),
    }
}

/// The wire word of a token with an outbound mapping.
#[verifier::rlimit(100)]
fn tok_string(t: Tok) -> (s: String)
    requires
        !(t is Other),
        !(t is WsError),
        !(t is WsClose),
        !(t is HandlerErr),
    ensures
        s@ == tok_text(t),
{
    match t {
        Tok::Me => String::from_str("ME"),
        Tok::Names => String::from_str("NAMES"),
        Tok::Join => String::from_str("JOIN"),
        Tok::Quit => String::from_str("QUIT"),
        Tok::Broadcast => String::from_str("BROADCAST"),
        Tok::Msg => String::from_str("MSG"),
        Tok::Privmsg => String::from_str("PRIVMSG"),
        Tok::Privmsgsent => String::from_str("PRIVMSGSENT"),
        Tok::Mute => String::from_str("MUTE"),
        Tok::Unmute => String::from_str("UNMUTE"),
        Tok::Ban => String::from_str("BAN"),
        Tok::Unban => String::from_str("UNBAN"),
        Tok::Subonly => String::from_str("SUBONLY"),
        Tok::Pin => String::from_str("PIN"),
        Tok::ErrTok => String::from_str("ERR"),
        Tok::BeforeEvery => String::from_str("BEFORE_EVERY_MESSAGE"),
        Tok::AfterEvery => String::from_str("AFTER_EVERY_MESSAGE"),
        _ => String::from_str("MENTION"),
    }
}

/// The token and base data of a plain-bodied event, where it is one.
#[verifier::rlimit(100)]
fn plain_parts<'a>(ev: &'a Event) -> (r: Option<(Tok, &'a BaseEventData)>)
    ensures
        match r {
            Some((t, b)) => !(t is Names) && !(t is Msg) && !(t is Other) && ev_view(*ev)
                == plain_eventv(t, base_view(*b)),
            None => ev is ServedConnections || ev is ChatMessage || ev is Unknown,
        },
{
    match ev {
        Event::Connected(b) => Some((Tok::Me, b)),
        Event::UserJoined(b) => Some((Tok::Join, b)),
        Event::UserQuit(b) => Some((Tok::Quit, b)),
        Event::Broadcast(b) => Some((Tok::Broadcast, b)),
        Event::Whisper(b) => Some((Tok::Privmsg, b)),
        Event::WhisperSent(b) => Some((Tok::Privmsgsent, b)),
        Event::Mute(b) => Some((Tok::Mute, b)),
        Event::Unmute(b) => Some((Tok::Unmute, b)),
        Event::Ban(b) => Some((Tok::Ban, b)),
        Event::Unban(b) => Some((Tok::Unban, b)),
        Event::SubOnly(b) => Some((Tok::Subonly, b)),
        Event::Pin(b) => Some((Tok::Pin, b)),
        Event::ErrorMessage(b) => Some((Tok::ErrTok, b)),
        Event::BeforeEveryMessage(b) => Some((Tok::BeforeEvery, b)),
        Event::AfterEveryMessage(b) => Some((Tok::AfterEvery, b)),
        Event::Mention(b) => Some((Tok::Mention, b)),
        Event::WebSocketError(b) => Some((Tok::WsError, b)),
        Event::WebSocketClose(b) => Some((Tok::WsClose, b)),
        Event::HandlerError(b) => Some((Tok::HandlerErr, b)),
        Event::ServedConnections(_) => None,
        Event::ChatMessage(_) => None,
        Event::Unknown(_) => None,
    }
}

/// Join a token and payload fields into one wire line.
fn join_line(tok: String, fields: Vec<(String, JsonValue)>) -> (s: String)
    ensures
        s@ == tok@ + seq![' '] + crate::json_print::print_jv(Jv::Obj(view_fields(fields@))),
{
    let obj = JsonValue::Obj(fields);
    proof {
        crate::json::lemma_view_unfold(obj);
    }
    let body = crate::json_print::to_text(&obj);
    let mut s = tok;
    s.append(" ");
    s.append(body.as_str());
    proof {
        reveal_strlit(" ");
        assert(" "@ =~= seq![' ']);
    }
    s
}

/// Encode an event as its wire line.
///
/// `Ok` exactly for the events `sp_encode` accepts — those with an outbound
/// token — and the line is the one it names. `Unknown` and the purely
/// inbound transport-level variants come back as `EncodeError`.
#[verifier::rlimit(100)]
#[verifier::spinoff_prover]
pub fn encode(ev: &Event) -> (r: Result<String, ChatError>)
    requires
        ev_wf(ev_view(*ev)),
    ensures
        match r {
            Ok(s) => sp_encode(ev_view(*ev)) == Some(s@),
            Err(e) => sp_encode(ev_view(*ev)) is None && e is EncodeError,
        },
{
    match plain_parts(ev) {
        Some((t, b)) => {
            match t {
                Tok::WsError => Err(ChatError::EncodeError),
                Tok::WsClose => Err(ChatError::EncodeError),
                Tok::HandlerErr => Err(ChatError::EncodeError),
                _ => {
                    proof {
                        assert(base_wf(base_view(*b))) by {
                            assert(ev_wf(plain_eventv(t, base_view(*b))));
                        }
                    }
                    let mut fields: Vec<(String, JsonValue)> = Vec::new();
                    proof {
                        assert(view_fields(fields@) =~= Seq::<(Seq<char>, Jv)>::empty());
                    }
                    encode_base_push(&mut fields, b);
                    proof {
                        assert(Seq::<(Seq<char>, Jv)>::empty() + enc_base_fields(base_view(*b))
                            =~= enc_base_fields(base_view(*b)));
                        assert(sp_token(plain_eventv(t, base_view(*b))) == Some(tok_text(t)));
                        assert(enc_fields(plain_eventv(t, base_view(*b))) == enc_base_fields(
                            base_view(*b),
                        ));
                    }
                    let s = join_line(tok_string(t), fields);
                    Ok(s)
                },
            }
        },
        None => {
            match ev {
                Event::ChatMessage(d) => {
                    proof {
                        assert(base_wf(base_view(d.base)));
                    }
                    let mut fields: Vec<(String, JsonValue)> = Vec::new();
                    proof {
                        assert(view_fields(fields@) =~= Seq::<(Seq<char>, Jv)>::empty());
                    }
                    let dv = JsonValue::Str(d.data.data.clone());
                    proof {
                        crate::json::lemma_view_unfold(dv);
                    }
                    let ghost s0 = fields@;
                    fields.push((String::from_str("data"), dv));
                    proof {
                        assert(fields@.drop_last() =~= s0);
                        assert(view_fields(fields@) == view_fields(s0).push(
                            ("data"@, Jv::Str(d.data.data@)),
                        ));
                        assert(view_fields(fields@) =~= seq![("data"@, Jv::Str(d.data.data@))]);
                    }
                    encode_base_push(&mut fields, &d.base);
                    proof {
                        assert(view_fields(fields@) == enc_fields(ev_view(*ev)));
                    }
                    let s = join_line(String::from_str("MSG"), fields);
                    proof {
                        reveal_strlit("MSG");
                    }
                    Ok(s)
                },
                Event::ServedConnections(d) => {
                    proof {
                        assert(base_wf(base_view(d.base)) && users_wf(view_users(d.data.users@)))
                            by {
                            assert(ev_wf(ev_view(*ev)));
                        }
                    }
                    let mut fields: Vec<(String, JsonValue)> = Vec::new();
                    proof {
                        assert(view_fields(fields@) =~= Seq::<(Seq<char>, Jv)>::empty());
                    }
                    let uv = JsonValue::Arr(encode_roster_users_exec(&d.data.users));
                    proof {
                        crate::json::lemma_view_unfold(uv);
                    }
                    let ghost s0 = fields@;
                    fields.push((String::from_str("users"), uv));
                    proof {
                        assert(fields@.drop_last() =~= s0);
                        assert(view_fields(fields@) == view_fields(s0).push(
                            ("users"@, Jv::Arr(enc_roster_users(view_users(d.data.users@)))),
                        ));
                    }
                    let ccv = JsonValue::Num(
                        crate::numbers::u64_to_text(d.data.connection_count as u64),
                    );
                    proof {
                        crate::json::lemma_view_unfold(ccv);
                    }
                    let ghost s1 = fields@;
                    fields.push((String::from_str("connectioncount"), ccv));
                    proof {
                        assert(fields@.drop_last() =~= s1);
                        assert(view_fields(fields@) == view_fields(s1).push(
                            (
                                "connectioncount"@,
                                Jv::Num(dec_digits(d.data.connection_count as nat)),
                            ),
                        ));
                        assert(view_fields(fields@) =~= seq![
                            ("users"@, Jv::Arr(enc_roster_users(view_users(d.data.users@)))),
                            (
                                "connectioncount"@,
                                Jv::Num(dec_digits(d.data.connection_count as nat)),
                            ),
                        ]);
                    }
                    encode_base_push(&mut fields, &d.base);
                    proof {
                        assert(view_fields(fields@) == enc_fields(ev_view(*ev)));
                    }
                    let s = join_line(String::from_str("NAMES"), fields);
                    proof {
                        reveal_strlit("NAMES");
                    }
                    Ok(s)
                },
                _ => Err(ChatError::EncodeError),
            }
        },
    }
}

} // verus!

verus! {

/// A run of non-space characters bounded by a space scans to it.
proof fn lemma_find_space_exact(s: Seq<char>, i: int, j: int)
    requires
        0 <= i <= j <= s.len(),
        forall|k: int| i <= k < j ==> #[trigger] s[k] != ' ',
        j == s.len() || s[j] == ' ',
    ensures
        find_space(s, i) == j,
    decreases j - i,
{
    if i < j {
        assert(s[i] != ' ');
        lemma_find_space_exact(s, i + 1, j);
    }
}

/// The split of a built line: a line made of a space-free token, one space
/// and a payload splits back into exactly that token and payload.
pub proof fn lemma_split_of(tok: Seq<char>, pay: Seq<char>)
    requires
        tok.len() > 0,
        forall|k: int| 0 <= k < tok.len() ==> #[trigger] tok[k] != ' ',
    ensures
        sp_split(tok + seq![' '] + pay) == Some((tok, pay)),
{
    let line = tok + seq![' '] + pay;
    assert forall|k: int| 0 <= k < tok.len() implies #[trigger] line[k] != ' ' by {
        assert(line[k] == tok[k]);
    }
    assert(line[tok.len() as int] == ' ');
    lemma_find_space_exact(line, 0, tok.len() as int);
    assert(line.subrange(0, tok.len() as int) =~= tok);
    assert(line.subrange(tok.len() as int + 1, line.len() as int) =~= pay);
}

/// The null normalization: for every token, the literal payload `null`
/// decodes exactly as the empty object does.
pub proof fn lemma_null_normalized(tok: Seq<char>)
    requires
        tok.len() > 0,
        forall|k: int| 0 <= k < tok.len() ==> #[trigger] tok[k] != ' ',
    ensures
        sp_decode(tok + seq![' '] + "null"@) == sp_decode(tok + seq![' '] + "{}"@),
{
    lemma_split_of(tok, "null"@);
    lemma_split_of(tok, "{}"@);
    reveal_strlit("null");
    reveal_strlit("{}");
    assert(sp_normalize("null"@) == "{}"@);
    assert("{}"@ != "null"@) by {
        assert("{}"@.len() == 2 && "null"@.len() == 4);
    }
    assert(sp_normalize("{}"@) == "{}"@);
}

} // verus!

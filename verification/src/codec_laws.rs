//! The codec round trip: a decoded line, written back, keeps its token and
//! its payload.

use crate::event::{BaseV, BodyKind, ChatV, EventV, base_wf, enc_base_fields, enc_fields,
    enc_user_fields, recognized_key, sp_base, sp_chat, sp_decode, sp_dispatch, sp_dispatch_tok,
    sp_encode, sp_split, sp_timestamp, sp_tok, sp_token, sp_user, str_values, unrecognized,
    user_wf, Tok, UserV};
use crate::json::{Jv, arr_wf, fields_wf, jv_wf, keys_unique, obj_get, obj_map};
use crate::json_print::print_jv;
use vstd::prelude::*;

verus! {

/// Keys unique on each side and across make the whole unique.
proof fn lemma_unique_app(a: Seq<(Seq<char>, Jv)>, b: Seq<(Seq<char>, Jv)>)
    requires
        keys_unique(a),
        keys_unique(b),
        forall|i: int, j: int|
            0 <= i < a.len() && 0 <= j < b.len() ==> (#[trigger] a[i]).0 != (#[trigger] b[j]).0,
    ensures
        keys_unique(a + b),
{
    assert forall|i: int, j: int| 0 <= i < j < (a + b).len() implies ((a + b)[i]).0 != ((a + b)[
        j]).0 by {
        if i < a.len() && j < a.len() {
            assert((a + b)[i] == a[i] && (a + b)[j] == a[j]);
        } else if i < a.len() {
            assert((a + b)[i] == a[i] && (a + b)[j] == b[j - a.len()]);
        } else {
            assert((a + b)[i] == b[i - a.len()] && (a + b)[j] == b[j - a.len()]);
        }
    }
}

/// Well-formed fields stay well formed under concatenation.
proof fn lemma_wf_app(a: Seq<(Seq<char>, Jv)>, b: Seq<(Seq<char>, Jv)>)
    requires
        fields_wf(a),
        fields_wf(b),
    ensures
        fields_wf(a + b),
    decreases a,
{
    if a.len() == 0 {
        assert(a + b =~= b);
    } else {
        assert(a.drop_first() + b =~= (a + b).drop_first());
        lemma_wf_app(a.drop_first(), b);
        assert((a + b).first() == a.first());
        assert(fields_wf((a + b).drop_first()) == fields_wf(a.drop_first() + b));
    }
}

/// The open bag keeps unique, unrecognized keys, and each of its fields is
/// one of the payload's.
proof fn lemma_unrec_sub(fs: Seq<(Seq<char>, Jv)>, kind: BodyKind)
    requires
        keys_unique(fs),
    ensures
        keys_unique(unrecognized(fs, kind)),
        forall|i: int|
            0 <= i < unrecognized(fs, kind).len() ==> !recognized_key(
                (#[trigger] unrecognized(fs, kind)[i]).0,
                kind,
            ),
        forall|i: int|
            0 <= i < unrecognized(fs, kind).len() ==> exists|j: int|
                0 <= j < fs.len() && #[trigger] unrecognized(fs, kind)[i] == fs[j],
    decreases fs,
{
    if fs.len() > 0 {
        assert(keys_unique(fs.drop_last())) by {
            assert(forall|x: int, y: int|
                0 <= x < y < fs.drop_last().len() ==> (#[trigger] fs.drop_last()[x]) == fs[x] && (
                #[trigger] fs.drop_last()[y]) == fs[y]);
        }
        lemma_unrec_sub(fs.drop_last(), kind);
        let u0 = unrecognized(fs.drop_last(), kind);
        let u = unrecognized(fs, kind);
        assert forall|i: int| 0 <= i < u0.len() implies exists|j: int|
            0 <= j < fs.len() && #[trigger] u0[i] == fs[j] by {
            let j = choose|j: int| 0 <= j < fs.drop_last().len() && #[trigger] u0[i] == fs.drop_last()[j];
            assert(u0[i] == fs[j]);
        }
        if recognized_key(fs.last().0, kind) {
            assert(u == u0);
        } else {
            assert(u == u0.push(fs.last()));
            assert forall|i: int| 0 <= i < u.len() implies exists|j: int|
                0 <= j < fs.len() && #[trigger] u[i] == fs[j] by {
                if i < u0.len() {
                    assert(u[i] == u0[i]);
                    let j = choose|j: int| 0 <= j < fs.len() && u0[i] == fs[j];
                    assert(u[i] == fs[j]);
                } else {
                    assert(u[i] == fs[fs.len() - 1]);
                }
            }
            assert forall|x: int, y: int| 0 <= x < y < u.len() implies ((u[x]).0 != (u[y]).0) by {
                if y < u0.len() {
                    assert(u[x] == u0[x] && u[y] == u0[y]);
                } else {
                    assert(u[y] == fs.last());
                    assert(u[x] == u0[x]);
                    let j = choose|j: int| 0 <= j < fs.len() && u0[x] == fs[j];
                    if j == fs.len() - 1 {
                        assert(!recognized_key(u0[x].0, kind));
                    } else {
                        assert(fs[j].0 != fs[fs.len() - 1].0);
                    }
                }
            }
        }
    }
}

/// Each field of the open bag carries one of the payload's values, so it is
/// well formed wherever the payload object is.
proof fn lemma_unrec_wf(fs: Seq<(Seq<char>, Jv)>, kind: BodyKind)
    requires
        keys_unique(fs),
        fields_wf(fs),
    ensures
        fields_wf(unrecognized(fs, kind)),
{
    lemma_unrec_sub(fs, kind);
    let u = unrecognized(fs, kind);
    crate::json::lemma_fields_wf_index(fs);
    crate::json::lemma_fields_wf_index(u);
    assert forall|i: int| 0 <= i < u.len() implies jv_wf((#[trigger] u[i]).1) by {
        let j = choose|j: int| 0 <= j < fs.len() && u[i] == fs[j];
        assert(jv_wf(fs[j].1));
    }
}

/// The field keys the codec writes, all distinct, all recognized.
proof fn lemma_written_keys()
    ensures
        "nick"@ != "features"@ && "nick"@ != "id"@ && "nick"@ != "createdDate"@ && "nick"@
            != "timestamp"@ && "nick"@ != "data"@,
        "features"@ != "id"@ && "features"@ != "createdDate"@ && "features"@ != "timestamp"@
            && "features"@ != "data"@,
        "id"@ != "createdDate"@ && "id"@ != "timestamp"@ && "id"@ != "data"@,
        "createdDate"@ != "timestamp"@ && "createdDate"@ != "data"@,
        "timestamp"@ != "data"@,
{
    reveal_strlit("nick");
    reveal_strlit("features");
    reveal_strlit("id");
    reveal_strlit("createdDate");
    reveal_strlit("timestamp");
    reveal_strlit("data");
    assert("nick"@.len() == 4 && "features"@.len() == 8 && "id"@.len() == 2 && "createdDate"@.len()
        == 11 && "timestamp"@.len() == 9 && "data"@.len() == 4);
    assert("nick"@[0] == 'n' && "data"@[0] == 'd');
}

/// String values are well-formed documents.
proof fn lemma_str_values_wf(xs: Seq<Seq<char>>)
    ensures
        arr_wf(str_values(xs)),
    decreases xs,
{
    if xs.len() > 0 {
        lemma_str_values_wf(xs.drop_last());
        let vs = str_values(xs);
        assert(vs == str_values(xs.drop_last()).push(Jv::Str(xs.last())));
        crate::json::lemma_arr_wf_index(str_values(xs.drop_last()));
        crate::json::lemma_arr_wf_index(vs);
        assert forall|i: int| 0 <= i < vs.len() implies jv_wf(#[trigger] vs[i]) by {
            if i < vs.len() - 1 {
                assert(vs[i] == str_values(xs.drop_last())[i]);
            }
        }
    }
}

/// The fields a user writes back: unique keys, all of them recognized under
/// every shape, all well formed.
proof fn lemma_enc_user(u: UserV)
    requires
        user_wf(u),
    ensures
        keys_unique(enc_user_fields(u)),
        fields_wf(enc_user_fields(u)),
        forall|i: int, kind: BodyKind|
            0 <= i < enc_user_fields(u).len() ==> #[trigger] recognized_key(
                (#[trigger] enc_user_fields(u)[i]).0,
                kind,
            ) && (enc_user_fields(u)[i]).0 != "timestamp"@ && (enc_user_fields(u)[i]).0 != "data"@
                && (enc_user_fields(u)[i]).0 != "users"@ && (enc_user_fields(u)[i]).0
                != "connectioncount"@,
{
    lemma_written_keys();
    reveal_strlit("users");
    reveal_strlit("connectioncount");
    reveal_strlit("nick");
    reveal_strlit("id");
    reveal_strlit("features");
    reveal_strlit("createdDate");
    reveal_strlit("timestamp");
    reveal_strlit("data");
    assert("users"@.len() == 5 && "connectioncount"@.len() == 15);
    assert("nick"@.len() == 4 && "id"@.len() == 2 && "features"@.len() == 8
        && "createdDate"@.len() == 11);
    lemma_str_values_wf(u.features);
    let e = enc_user_fields(u);
    crate::json::lemma_fields_wf_index(e);
    match (u.id, u.created_date) {
        (Some(n), Some(d)) => {
            crate::numbers::lemma_dec_digits_valid_num(n as nat);
            assert(e =~= seq![
                ("nick"@, Jv::Str(u.nick)),
                ("id"@, Jv::Num(crate::numbers::dec_digits(n as nat))),
                ("features"@, Jv::Arr(str_values(u.features))),
                ("createdDate"@, Jv::Str(crate::datetime::dt_text(d))),
            ]);
        },
        (Some(n), None) => {
            crate::numbers::lemma_dec_digits_valid_num(n as nat);
            assert(e =~= seq![
                ("nick"@, Jv::Str(u.nick)),
                ("id"@, Jv::Num(crate::numbers::dec_digits(n as nat))),
                ("features"@, Jv::Arr(str_values(u.features))),
            ]);
        },
        (None, Some(d)) => {
            assert(e =~= seq![
                ("nick"@, Jv::Str(u.nick)),
                ("features"@, Jv::Arr(str_values(u.features))),
                ("createdDate"@, Jv::Str(crate::datetime::dt_text(d))),
            ]);
        },
        (None, None) => {
            assert(e =~= seq![
                ("nick"@, Jv::Str(u.nick)),
                ("features"@, Jv::Arr(str_values(u.features))),
            ]);
        },
    }
    assert forall|i: int| 0 <= i < e.len() implies jv_wf((#[trigger] e[i]).1) by {
    }
    assert forall|i: int, kind: BodyKind|
        0 <= i < e.len() implies #[trigger] recognized_key((#[trigger] e[i]).0, kind) && (
    e[i]).0 != "timestamp"@ && (e[i]).0 != "data"@ && (e[i]).0 != "users"@ && (e[i]).0
        != "connectioncount"@ by {
        assert((e[i]).0 == "nick"@ || (e[i]).0 == "id"@ || (e[i]).0 == "features"@ || (e[i]).0
            == "createdDate"@);
    }
}

} // verus!

verus! {

/// A lifted user can be written back: any datetime it carries is valid.
proof fn lemma_sp_user_wf(fs: Seq<(Seq<char>, Jv)>)
    ensures
        match sp_user(fs) {
            Some(Some(uv)) => user_wf(uv),
            _ => true,
        },
{
    match obj_get(fs, "nick"@) {
        None => {},
        Some(nv) => match nv {
            Jv::Str(nick) => {
                match obj_get(fs, "createdDate"@) {
                    None => {},
                    Some(Jv::Str(t)) => {
                        if exists|d: crate::datetime::DateTime|
                            crate::datetime::dt_valid(d) && t == crate::datetime::dt_text(d) {
                            let w = choose|d: crate::datetime::DateTime|
                                crate::datetime::dt_valid(d) && t == crate::datetime::dt_text(d);
                            assert(crate::datetime::dt_valid(w));
                        }
                    },
                    Some(_) => {},
                }
            },
            _ => {},
        },
    }
}

/// The base data a payload lifts can be written back with unique keys and
/// well-formed values.
proof fn lemma_enc_base(b: BaseV, kind: BodyKind)
    requires
        base_wf(b),
        keys_unique(b.extra),
        forall|i: int|
            0 <= i < b.extra.len() ==> !recognized_key((#[trigger] b.extra[i]).0, kind),
        fields_wf(b.extra),
    ensures
        keys_unique(enc_base_fields(b)),
        fields_wf(enc_base_fields(b)),
        forall|i: int|
            0 <= i < enc_base_fields(b).len() ==> (#[trigger] enc_base_fields(b)[i]).0 != "data"@
                || !(kind is Chat),
{
    lemma_written_keys();
    let up: Seq<(Seq<char>, Jv)> = match b.user {
        Some(u) => enc_user_fields(u),
        None => Seq::empty(),
    };
    let tp: Seq<(Seq<char>, Jv)> = match b.timestamp {
        Some(ts) => seq![("timestamp"@, Jv::Num(crate::numbers::int_digits(ts as int)))],
        None => Seq::empty(),
    };
    assert(enc_base_fields(b) == up + tp + b.extra);
    match b.user {
        Some(u) => {
            lemma_enc_user(u);
        },
        None => {
            assert(keys_unique(up));
            assert(fields_wf(up));
        },
    }
    match b.timestamp {
        Some(ts) => {
            crate::numbers::lemma_int_digits_valid_num(ts as int);
            assert(keys_unique(tp));
            assert(tp.first() == ("timestamp"@, Jv::Num(crate::numbers::int_digits(ts as int))));
            assert(tp.drop_first() =~= Seq::<(Seq<char>, Jv)>::empty());
            assert(fields_wf(Seq::<(Seq<char>, Jv)>::empty()));
            assert(fields_wf(tp.drop_first()) == fields_wf(Seq::<(Seq<char>, Jv)>::empty()));
            assert(jv_wf(tp.first().1));
            assert(fields_wf(tp));
        },
        None => {
            assert(keys_unique(tp));
            assert(fields_wf(tp));
        },
    }
    assert forall|i: int, j: int|
        0 <= i < up.len() && 0 <= j < tp.len() implies (#[trigger] up[i]).0 != (
    #[trigger] tp[j]).0 by {
        assert(up[i].0 != "timestamp"@);
    }
    lemma_unique_app(up, tp);
    lemma_wf_app(up, tp);
    assert forall|i: int, j: int|
        0 <= i < (up + tp).len() && 0 <= j < b.extra.len() implies (#[trigger] (up + tp)[i]).0
        != (#[trigger] b.extra[j]).0 by {
        assert(recognized_key(((up + tp)[i]).0, kind)) by {
            if i < up.len() {
                assert((up + tp)[i] == up[i]);
            } else {
                assert((up + tp)[i] == tp[i - up.len()]);
            }
        }
        assert(!recognized_key(b.extra[j].0, kind));
    }
    lemma_unique_app(up + tp, b.extra);
    lemma_wf_app(up + tp, b.extra);
    assert forall|i: int|
        0 <= i < enc_base_fields(b).len() implies (#[trigger] enc_base_fields(b)[i]).0 != "data"@
            || !(kind is Chat) by {
        if kind is Chat {
            if i < up.len() {
                assert(enc_base_fields(b)[i] == up[i]);
                assert(up[i].0 != "data"@);
            } else if i < up.len() + tp.len() {
                assert(enc_base_fields(b)[i] == tp[i - up.len()]);
            } else {
                assert(enc_base_fields(b)[i] == b.extra[i - up.len() - tp.len()]);
                assert(!recognized_key(b.extra[i - up.len() - tp.len()].0, kind));
            }
        }
    }
}

} // verus!

verus! {

/// What a successful lift of the base data says of its parts.
proof fn lemma_sp_base_parts(fs: Seq<(Seq<char>, Jv)>, kind: BodyKind)
    requires
        sp_base(fs, kind) is Some,
    ensures
        sp_user(fs) == Some(sp_base(fs, kind).unwrap().user),
        sp_base(fs, kind).unwrap().extra == unrecognized(fs, kind),
        match sp_base(fs, kind).unwrap().user {
            Some(uv) => user_wf(uv),
            None => true,
        },
{
    lemma_sp_user_wf(fs);
}

/// The codec round trip: a decoded line whose event has an outbound token,
/// written back, is that token, one space, and the compact text of the
/// fields the event writes; and that text parses back to exactly those
/// fields.
#[verifier::rlimit(100)]
#[verifier::spinoff_prover]
pub proof fn lemma_codec_round_trip(line: Seq<char>)
    requires
        sp_decode(line) is Some,
        sp_token(sp_decode(line).unwrap()) is Some,
    ensures
        sp_split(line) is Some,
        sp_token(sp_decode(line).unwrap()) == Some(sp_split(line).unwrap().0),
        sp_encode(sp_decode(line).unwrap()) == Some(
            sp_split(line).unwrap().0 + seq![' '] + print_jv(
                Jv::Obj(enc_fields(sp_decode(line).unwrap())),
            ),
        ),
        crate::json_parse::sp_json(print_jv(Jv::Obj(enc_fields(sp_decode(line).unwrap()))))
            == Some(Jv::Obj(enc_fields(sp_decode(line).unwrap()))),
{
    let ev = sp_decode(line).unwrap();
    let tok = sp_split(line).unwrap().0;
    let pay = sp_split(line).unwrap().1;
    let norm = crate::event::sp_normalize(pay);
    crate::json_laws::lemma_sp_json_wf(norm);
    let v = crate::json_parse::sp_json(norm).unwrap();
    let fs = v->Obj_0;
    assert(v == Jv::Obj(fs) && jv_wf(v));
    assert(keys_unique(fs) && fields_wf(fs));
    assert(ev == sp_dispatch_tok(sp_tok(tok), fs).unwrap());
    let t = sp_tok(tok);
    match t {
        Tok::Names => {
            let r = crate::event::sp_roster(fs).unwrap();
            assert(ev == EventV::ServedConnections(r));
            assert(tok == "NAMES"@);
            assert(sp_token(ev) == Some("NAMES"@));
            lemma_enc_sc_fields(fs, r);
            assert(jv_wf(Jv::Obj(enc_fields(ev))));
            crate::json_laws::lemma_text_round_trip(Jv::Obj(enc_fields(ev)));
        },
        Tok::Other => {
            assert(ev is Unknown);
            assert(false);
        },
        Tok::Msg => {
            let c = sp_chat(fs).unwrap();
            assert(ev == EventV::ChatMessage(c));
            assert(tok == "MSG"@);
            assert(sp_token(ev) == Some("MSG"@));
            lemma_sp_base_parts(fs, BodyKind::Chat);
            let b = c.base;
            assert(b.extra == unrecognized(fs, BodyKind::Chat));
            lemma_unrec_sub(fs, BodyKind::Chat);
            lemma_unrec_wf(fs, BodyKind::Chat);
            assert(base_wf(b));
            lemma_enc_base(b, BodyKind::Chat);
            lemma_written_keys();
            let dp: Seq<(Seq<char>, Jv)> = seq![("data"@, Jv::Str(c.data))];
            assert(enc_fields(ev) == dp + enc_base_fields(b));
            assert(keys_unique(dp));
            assert(dp.first() == ("data"@, Jv::Str(c.data)));
            assert(dp.drop_first() =~= Seq::<(Seq<char>, Jv)>::empty());
            assert(fields_wf(Seq::<(Seq<char>, Jv)>::empty()));
            assert(fields_wf(dp.drop_first()) == fields_wf(Seq::<(Seq<char>, Jv)>::empty()));
            assert(jv_wf(dp.first().1));
            assert(fields_wf(dp));
            assert forall|i: int, j: int|
                0 <= i < dp.len() && 0 <= j < enc_base_fields(b).len() implies (
            #[trigger] dp[i]).0 != (#[trigger] enc_base_fields(b)[j]).0 by {
                assert(enc_base_fields(b)[j].0 != "data"@);
            }
            lemma_unique_app(dp, enc_base_fields(b));
            lemma_wf_app(dp, enc_base_fields(b));
            assert(jv_wf(Jv::Obj(enc_fields(ev))));
            crate::json_laws::lemma_text_round_trip(Jv::Obj(enc_fields(ev)));
        },
        _ => {
            let b = sp_base(fs, BodyKind::Plain).unwrap();
            assert(ev == crate::event::plain_eventv(t, b));
            assert(sp_token(ev) == Some(tok)) by {
                match t {
                    Tok::Me => {
                        assert(tok == "ME"@ && ev is Connected);
                    },
                    Tok::Join => {
                        assert(tok == "JOIN"@ && ev is UserJoined);
                    },
                    Tok::Quit => {
                        assert(tok == "QUIT"@ && ev is UserQuit);
                    },
                    Tok::Broadcast => {
                        assert(tok == "BROADCAST"@ && ev is Broadcast);
                    },
                    Tok::Privmsg => {
                        assert(tok == "PRIVMSG"@ && ev is Whisper);
                    },
                    Tok::Privmsgsent => {
                        assert(tok == "PRIVMSGSENT"@ && ev is WhisperSent);
                    },
                    Tok::Mute => {
                        assert(tok == "MUTE"@ && ev is Mute);
                    },
                    Tok::Unmute => {
                        assert(tok == "UNMUTE"@ && ev is Unmute);
                    },
                    Tok::Ban => {
                        assert(tok == "BAN"@ && ev is Ban);
                    },
                    Tok::Unban => {
                        assert(tok == "UNBAN"@ && ev is Unban);
                    },
                    Tok::Subonly => {
                        assert(tok == "SUBONLY"@ && ev is SubOnly);
                    },
                    Tok::Pin => {
                        assert(tok == "PIN"@ && ev is Pin);
                    },
                    Tok::ErrTok => {
                        assert(tok == "ERR"@ && ev is ErrorMessage);
                    },
                    Tok::BeforeEvery => {
                        assert(tok == "BEFORE_EVERY_MESSAGE"@ && ev is BeforeEveryMessage);
                    },
                    Tok::AfterEvery => {
                        assert(tok == "AFTER_EVERY_MESSAGE"@ && ev is AfterEveryMessage);
                    },
                    Tok::Mention => {
                        assert(tok == "MENTION"@ && ev is Mention);
                    },
                    Tok::WsError => {
                        assert(sp_token(ev) is None);
                        assert(false);
                    },
                    Tok::WsClose => {
                        assert(sp_token(ev) is None);
                        assert(false);
                    },
                    Tok::HandlerErr => {
                        assert(sp_token(ev) is None);
                        assert(false);
                    },
                    _ => {
                        assert(false);
                    },
                }
            }
            lemma_sp_base_parts(fs, BodyKind::Plain);
            assert(b.extra == unrecognized(fs, BodyKind::Plain));
            lemma_unrec_sub(fs, BodyKind::Plain);
            lemma_unrec_wf(fs, BodyKind::Plain);
            assert(base_wf(b));
            lemma_enc_base(b, BodyKind::Plain);
            assert(enc_fields(ev) == enc_base_fields(b));
            assert(jv_wf(Jv::Obj(enc_fields(ev))));
            crate::json_laws::lemma_text_round_trip(Jv::Obj(enc_fields(ev)));
        },
    }
}

} // verus!

verus! {

/// The first match in a concatenation: the left part is searched first.
proof fn lemma_obj_get_app(a: Seq<(Seq<char>, Jv)>, b: Seq<(Seq<char>, Jv)>, k: Seq<char>)
    ensures
        obj_get(a + b, k) == (match obj_get(a, k) {
            Some(v) => Some(v),
            None => obj_get(b, k),
        }),
    decreases a,
{
    if a.len() == 0 {
        assert(a + b =~= b);
    } else {
        assert((a + b).first() == a.first());
        assert((a + b).drop_first() =~= a.drop_first() + b);
        lemma_obj_get_app(a.drop_first(), b, k);
        assert(obj_get((a + b).drop_first(), k) == obj_get(a.drop_first() + b, k));
    }
}

/// String values, pointwise.
proof fn lemma_str_values_index(ss: Seq<Seq<char>>)
    ensures
        str_values(ss).len() == ss.len(),
        forall|i: int| 0 <= i < ss.len() ==> #[trigger] str_values(ss)[i] == Jv::Str(ss[i]),
    decreases ss,
{
    if ss.len() > 0 {
        lemma_str_values_index(ss.drop_last());
        assert(str_values(ss) == str_values(ss.drop_last()).push(Jv::Str(ss.last())));
        assert forall|i: int| 0 <= i < ss.len() implies #[trigger] str_values(ss)[i] == Jv::Str(
            ss[i],
        ) by {
            if i < ss.len() - 1 {
                assert(str_values(ss)[i] == str_values(ss.drop_last())[i]);
                assert(ss.drop_last()[i] == ss[i]);
            } else {
                assert(ss[i] == ss.last());
            }
        }
    }
}

/// Lifting the strings of an array and writing them back reproduces the
/// array.
proof fn lemma_strings_inverse(xs: Seq<Jv>)
    requires
        crate::event::sp_strings(xs) is Some,
    ensures
        xs == str_values(crate::event::sp_strings(xs).unwrap()),
    decreases xs,
{
    let ss = crate::event::sp_strings(xs).unwrap();
    if xs.len() == 0 {
        assert(ss =~= Seq::<Seq<char>>::empty());
        assert(xs =~= str_values(ss));
    } else {
        match xs.first() {
            Jv::Str(s) => {
                let rest = crate::event::sp_strings(xs.drop_first()).unwrap();
                assert(ss == seq![s] + rest);
                lemma_strings_inverse(xs.drop_first());
                lemma_str_values_index(ss);
                lemma_str_values_index(rest);
                assert(xs =~= str_values(ss)) by {
                    assert forall|i: int| 0 <= i < xs.len() implies xs[i] == str_values(ss)[i] by {
                        if i == 0 {
                            assert(ss[0] == s);
                        } else {
                            assert(xs[i] == xs.drop_first()[i - 1]);
                            assert(xs.drop_first()[i - 1] == str_values(rest)[i - 1]);
                            assert(str_values(rest)[i - 1] == Jv::Str(rest[i - 1]));
                            assert(ss[i] == rest[i - 1]);
                        }
                    }
                }
            },
            _ => {},
        }
    }
}

/// What a successful user lift says of each recognized field of the payload.
proof fn lemma_sp_user_parts(fs: Seq<(Seq<char>, Jv)>)
    requires
        sp_user(fs) is Some,
    ensures
        match sp_user(fs).unwrap() {
            Some(uv) => {
                &&& obj_get(fs, "nick"@) == Some(Jv::Str(uv.nick))
                &&& obj_get(fs, "features"@) == Some(Jv::Arr(str_values(uv.features)))
                &&& (match uv.id {
                    Some(n) => obj_get(fs, "id"@) == Some(
                        Jv::Num(crate::numbers::dec_digits(n as nat)),
                    ),
                    None => obj_get(fs, "id"@) is None,
                })
                &&& (match uv.created_date {
                    Some(d) => obj_get(fs, "createdDate"@) == Some(
                        Jv::Str(crate::datetime::dt_text(d)),
                    ),
                    None => obj_get(fs, "createdDate"@) is None,
                })
            },
            None => obj_get(fs, "nick"@) is None && obj_get(fs, "features"@) is None && obj_get(
                fs,
                "id"@,
            ) is None && obj_get(fs, "createdDate"@) is None,
        },
{
    match obj_get(fs, "nick"@) {
        None => {},
        Some(nv) => match nv {
            Jv::Str(nick) => {
                match obj_get(fs, "features"@) {
                    Some(Jv::Arr(xs)) => {
                        lemma_strings_inverse(xs);
                    },
                    _ => {},
                }
                match obj_get(fs, "id"@) {
                    Some(Jv::Num(t)) => {
                        if exists|n: u32| t == crate::numbers::dec_digits(n as nat) {
                            let w = choose|n: u32| t == crate::numbers::dec_digits(n as nat);
                            assert(t == crate::numbers::dec_digits(w as nat));
                        }
                    },
                    _ => {},
                }
                match obj_get(fs, "createdDate"@) {
                    Some(Jv::Str(t)) => {
                        if exists|d: crate::datetime::DateTime|
                            crate::datetime::dt_valid(d) && t == crate::datetime::dt_text(d) {
                            let w = choose|d: crate::datetime::DateTime|
                                crate::datetime::dt_valid(d) && t == crate::datetime::dt_text(d);
                            assert(t == crate::datetime::dt_text(w));
                        }
                    },
                    _ => {},
                }
            },
            _ => {},
        },
    }
}

/// What a successful timestamp lift says of that field of the payload.
proof fn lemma_sp_timestamp_parts(fs: Seq<(Seq<char>, Jv)>)
    requires
        sp_timestamp(fs) is Some,
    ensures
        match sp_timestamp(fs).unwrap() {
            Some(n) => obj_get(fs, "timestamp"@) == Some(
                Jv::Num(crate::numbers::int_digits(n as int)),
            ),
            None => obj_get(fs, "timestamp"@) is None,
        },
{
    match obj_get(fs, "timestamp"@) {
        Some(Jv::Num(t)) => {
            if exists|n: i64| t == crate::numbers::int_digits(n as int) {
                let w = choose|n: i64| t == crate::numbers::int_digits(n as int);
                assert(t == crate::numbers::int_digits(w as int));
            }
        },
        _ => {},
    }
}

/// The open bag reads the payload at every unrecognized key, and holds no
/// recognized one.
proof fn lemma_unrec_at(fs: Seq<(Seq<char>, Jv)>, kind: BodyKind, k: Seq<char>)
    requires
        keys_unique(fs),
    ensures
        recognized_key(k, kind) ==> obj_get(unrecognized(fs, kind), k) is None,
        !recognized_key(k, kind) ==> obj_get(unrecognized(fs, kind), k) == obj_get(fs, k),
{
    lemma_unrec_sub(fs, kind);
    let u = unrecognized(fs, kind);
    crate::json::lemma_obj_get_index(u, k);
    crate::json::lemma_obj_get_index(fs, k);
    if recognized_key(k, kind) {
        match obj_get(u, k) {
            Some(v) => {
                let i = choose|i: int| 0 <= i < u.len() && #[trigger] u[i] == (k, v);
                assert(!recognized_key(u[i].0, kind));
            },
            None => {},
        }
    } else {
        crate::json::lemma_obj_get_map(u, k);
        crate::json::lemma_obj_get_map(fs, k);
        lemma_unrec_maps(fs, kind, k);
    }
}

/// At an unrecognized key the open bag's map is the payload's map.
proof fn lemma_unrec_maps(fs: Seq<(Seq<char>, Jv)>, kind: BodyKind, k: Seq<char>)
    requires
        keys_unique(fs),
        !recognized_key(k, kind),
    ensures
        obj_map(unrecognized(fs, kind)).dom().contains(k) == obj_map(fs).dom().contains(k),
        obj_map(fs).dom().contains(k) ==> obj_map(unrecognized(fs, kind))[k] == obj_map(fs)[k],
    decreases fs,
{
    if fs.len() > 0 {
        assert(keys_unique(fs.drop_last())) by {
            assert(forall|x: int, y: int|
                0 <= x < y < fs.drop_last().len() ==> (#[trigger] fs.drop_last()[x]) == fs[x] && (
                #[trigger] fs.drop_last()[y]) == fs[y]);
        }
        lemma_unrec_maps(fs.drop_last(), kind, k);
        let u0 = unrecognized(fs.drop_last(), kind);
        let u = unrecognized(fs, kind);
        if recognized_key(fs.last().0, kind) {
            assert(u == u0);
            assert(fs.last().0 != k);
            assert(obj_map(fs) == obj_map(fs.drop_last()).insert(fs.last().0, fs.last().1));
        } else {
            assert(u == u0.push(fs.last()));
            assert(u.drop_last() =~= u0);
            assert(u.last() == fs.last());
            assert(obj_map(u) == obj_map(u0).insert(fs.last().0, fs.last().1));
            assert(obj_map(fs) == obj_map(fs.drop_last()).insert(fs.last().0, fs.last().1));
        }
    }
}

} // verus!

verus! {

proof fn lemma_get1(x0: (Seq<char>, Jv), k: Seq<char>)
    ensures
        obj_get(seq![x0], k) == (if x0.0 == k {
            Some(x0.1)
        } else {
            None
        }),
{
    let s = seq![x0];
    assert(s.first() == x0);
    assert(s.drop_first() =~= Seq::<(Seq<char>, Jv)>::empty());
    assert(obj_get(Seq::<(Seq<char>, Jv)>::empty(), k) is None);
}

proof fn lemma_get2(x0: (Seq<char>, Jv), x1: (Seq<char>, Jv), k: Seq<char>)
    ensures
        obj_get(seq![x0, x1], k) == (if x0.0 == k {
            Some(x0.1)
        } else if x1.0 == k {
            Some(x1.1)
        } else {
            None
        }),
{
    let s = seq![x0, x1];
    assert(s.first() == x0);
    assert(s.drop_first() =~= seq![x1]);
    lemma_get1(x1, k);
    assert(obj_get(s.drop_first(), k) == obj_get(seq![x1], k));
}

proof fn lemma_get3(x0: (Seq<char>, Jv), x1: (Seq<char>, Jv), x2: (Seq<char>, Jv), k: Seq<char>)
    ensures
        obj_get(seq![x0, x1, x2], k) == (if x0.0 == k {
            Some(x0.1)
        } else if x1.0 == k {
            Some(x1.1)
        } else if x2.0 == k {
            Some(x2.1)
        } else {
            None
        }),
{
    let s = seq![x0, x1, x2];
    assert(s.first() == x0);
    assert(s.drop_first() =~= seq![x1, x2]);
    lemma_get2(x1, x2, k);
    assert(obj_get(s.drop_first(), k) == obj_get(seq![x1, x2], k));
}

proof fn lemma_get4(
    x0: (Seq<char>, Jv),
    x1: (Seq<char>, Jv),
    x2: (Seq<char>, Jv),
    x3: (Seq<char>, Jv),
    k: Seq<char>,
)
    ensures
        obj_get(seq![x0, x1, x2, x3], k) == (if x0.0 == k {
            Some(x0.1)
        } else if x1.0 == k {
            Some(x1.1)
        } else if x2.0 == k {
            Some(x2.1)
        } else if x3.0 == k {
            Some(x3.1)
        } else {
            None
        }),
{
    let s = seq![x0, x1, x2, x3];
    assert(s.first() == x0);
    assert(s.drop_first() =~= seq![x1, x2, x3]);
    lemma_get3(x1, x2, x3, k);
    assert(obj_get(s.drop_first(), k) == obj_get(seq![x1, x2, x3], k));
}

/// Reading the written base fields at any key other than a chat text reads
/// the payload.
#[verifier::rlimit(100)]
#[verifier::spinoff_prover]
proof fn lemma_base_get(fs: Seq<(Seq<char>, Jv)>, kind: BodyKind, b: BaseV, k: Seq<char>)
    requires
        keys_unique(fs),
        sp_base(fs, kind) == Some(b),
        kind is Chat ==> k != "data"@,
        kind is Roster ==> k != "users"@ && k != "connectioncount"@,
    ensures
        obj_get(enc_base_fields(b), k) == obj_get(fs, k),
{
    lemma_written_keys();
    reveal_strlit("users");
    reveal_strlit("connectioncount");
    reveal_strlit("nick");
    reveal_strlit("id");
    reveal_strlit("features");
    reveal_strlit("createdDate");
    reveal_strlit("timestamp");
    reveal_strlit("data");
    assert("users"@.len() == 5 && "connectioncount"@.len() == 15);
    assert("nick"@.len() == 4 && "id"@.len() == 2 && "features"@.len() == 8
        && "createdDate"@.len() == 11 && "timestamp"@.len() == 9 && "data"@.len() == 4);
    lemma_sp_base_parts(fs, kind);
    lemma_sp_user_parts(fs);
    lemma_sp_timestamp_parts(fs);
    let up: Seq<(Seq<char>, Jv)> = match b.user {
        Some(u) => enc_user_fields(u),
        None => Seq::empty(),
    };
    let tp: Seq<(Seq<char>, Jv)> = match b.timestamp {
        Some(ts) => seq![("timestamp"@, Jv::Num(crate::numbers::int_digits(ts as int)))],
        None => Seq::empty(),
    };
    assert(enc_base_fields(b) == up + tp + b.extra);
    lemma_obj_get_app(up + tp, b.extra, k);
    lemma_obj_get_app(up, tp, k);
    // The written user part, read at `k`.
    match b.user {
        Some(uv) => {
            match (uv.id, uv.created_date) {
                (Some(n), Some(d)) => {
                    assert(up =~= seq![
                        ("nick"@, Jv::Str(uv.nick)),
                        ("id"@, Jv::Num(crate::numbers::dec_digits(n as nat))),
                        ("features"@, Jv::Arr(str_values(uv.features))),
                        ("createdDate"@, Jv::Str(crate::datetime::dt_text(d))),
                    ]);
                    lemma_get4(
                        ("nick"@, Jv::Str(uv.nick)),
                        ("id"@, Jv::Num(crate::numbers::dec_digits(n as nat))),
                        ("features"@, Jv::Arr(str_values(uv.features))),
                        ("createdDate"@, Jv::Str(crate::datetime::dt_text(d))),
                        k,
                    );
                },
                (Some(n), None) => {
                    assert(up =~= seq![
                        ("nick"@, Jv::Str(uv.nick)),
                        ("id"@, Jv::Num(crate::numbers::dec_digits(n as nat))),
                        ("features"@, Jv::Arr(str_values(uv.features))),
                    ]);
                    lemma_get3(
                        ("nick"@, Jv::Str(uv.nick)),
                        ("id"@, Jv::Num(crate::numbers::dec_digits(n as nat))),
                        ("features"@, Jv::Arr(str_values(uv.features))),
                        k,
                    );
                },
                (None, Some(d)) => {
                    assert(up =~= seq![
                        ("nick"@, Jv::Str(uv.nick)),
                        ("features"@, Jv::Arr(str_values(uv.features))),
                        ("createdDate"@, Jv::Str(crate::datetime::dt_text(d))),
                    ]);
                    lemma_get3(
                        ("nick"@, Jv::Str(uv.nick)),
                        ("features"@, Jv::Arr(str_values(uv.features))),
                        ("createdDate"@, Jv::Str(crate::datetime::dt_text(d))),
                        k,
                    );
                },
                (None, None) => {
                    assert(up =~= seq![
                        ("nick"@, Jv::Str(uv.nick)),
                        ("features"@, Jv::Arr(str_values(uv.features))),
                    ]);
                    lemma_get2(
                        ("nick"@, Jv::Str(uv.nick)),
                        ("features"@, Jv::Arr(str_values(uv.features))),
                        k,
                    );
                },
            }
        },
        None => {
            assert(obj_get(up, k) is None);
        },
    }
    match b.timestamp {
        Some(ts) => {
            lemma_get1(("timestamp"@, Jv::Num(crate::numbers::int_digits(ts as int))), k);
        },
        None => {
            assert(obj_get(tp, k) is None);
        },
    }
    lemma_unrec_at(fs, kind, k);
    if k == "nick"@ || k == "id"@ || k == "features"@ || k == "createdDate"@ || k
        == "timestamp"@ {
    } else {
        assert(!recognized_key(k, kind));
        assert(obj_get(up, k) is None) by {
            match b.user {
                Some(uv) => {
                    assert(recognized_key("nick"@, kind) && recognized_key("id"@, kind)
                        && recognized_key("features"@, kind) && recognized_key(
                        "createdDate"@,
                        kind,
                    ));
                },
                None => {},
            }
        }
        assert(obj_get(tp, k) is None);
    }
}

} // verus!

verus! {

/// One key of the written plain payload, against the payload it was lifted
/// from.
#[verifier::rlimit(100)]
#[verifier::spinoff_prover]
proof fn lemma_plain_at(fs: Seq<(Seq<char>, Jv)>, b: BaseV, k: Seq<char>)
    requires
        keys_unique(fs),
        fields_wf(fs),
        sp_base(fs, BodyKind::Plain) == Some(b),
    ensures
        obj_map(enc_base_fields(b)).dom().contains(k) == obj_map(fs).dom().contains(k),
        obj_map(fs).dom().contains(k) ==> obj_map(enc_base_fields(b))[k] == obj_map(fs)[k],
{
    lemma_sp_base_parts(fs, BodyKind::Plain);
    lemma_unrec_sub(fs, BodyKind::Plain);
    lemma_unrec_wf(fs, BodyKind::Plain);
    lemma_enc_base(b, BodyKind::Plain);
    let enc = enc_base_fields(b);
    crate::json::lemma_obj_get_map(enc, k);
    crate::json::lemma_obj_get_map(fs, k);
    lemma_base_get(fs, BodyKind::Plain, b, k);
}

/// For a plain-bodied event, the written payload maps exactly as the one it
/// was lifted from.
pub proof fn lemma_payload_map_plain(fs: Seq<(Seq<char>, Jv)>, b: BaseV)
    requires
        keys_unique(fs),
        fields_wf(fs),
        sp_base(fs, BodyKind::Plain) == Some(b),
    ensures
        obj_map(enc_base_fields(b)) == obj_map(fs),
{
    let enc = enc_base_fields(b);
    assert forall|k: Seq<char>|
        #[trigger] obj_map(enc).dom().contains(k) == obj_map(fs).dom().contains(k) && (obj_map(
            fs,
        ).dom().contains(k) ==> obj_map(enc)[k] == obj_map(fs)[k]) by {
        lemma_plain_at(fs, b, k);
    }
    assert(obj_map(enc).dom() =~= obj_map(fs).dom());
    assert(obj_map(enc) =~= obj_map(fs));
}

/// One key of the written chat payload, against the payload it was lifted
/// from.
#[verifier::rlimit(100)]
#[verifier::spinoff_prover]
proof fn lemma_chat_at(fs: Seq<(Seq<char>, Jv)>, c: ChatV, k: Seq<char>)
    requires
        keys_unique(fs),
        fields_wf(fs),
        sp_chat(fs) == Some(c),
    ensures
        obj_map(enc_fields(EventV::ChatMessage(c))).dom().contains(k) == obj_map(
            fs,
        ).dom().contains(k),
        obj_map(fs).dom().contains(k) ==> obj_map(enc_fields(EventV::ChatMessage(c)))[k]
            == obj_map(fs)[k],
{
    lemma_written_keys();
    lemma_sp_base_parts(fs, BodyKind::Chat);
    lemma_unrec_sub(fs, BodyKind::Chat);
    lemma_unrec_wf(fs, BodyKind::Chat);
    let b = c.base;
    lemma_enc_base(b, BodyKind::Chat);
    let dp: Seq<(Seq<char>, Jv)> = seq![("data"@, Jv::Str(c.data))];
    let enc = enc_fields(EventV::ChatMessage(c));
    assert(enc == dp + enc_base_fields(b));
    assert(keys_unique(dp));
    assert forall|i: int, j: int|
        0 <= i < dp.len() && 0 <= j < enc_base_fields(b).len() implies (#[trigger] dp[i]).0 != (
    #[trigger] enc_base_fields(b)[j]).0 by {
        assert(enc_base_fields(b)[j].0 != "data"@);
    }
    lemma_unique_app(dp, enc_base_fields(b));
    crate::json::lemma_obj_get_map(enc, k);
    crate::json::lemma_obj_get_map(fs, k);
    lemma_obj_get_app(dp, enc_base_fields(b), k);
    lemma_get1(("data"@, Jv::Str(c.data)), k);
    if k == "data"@ {
        assert(obj_get(fs, "data"@) == Some(Jv::Str(c.data)));
    } else {
        lemma_base_get(fs, BodyKind::Chat, c.base, k);
    }
}

/// For a chat message, the written payload maps exactly as the one it was
/// lifted from.
pub proof fn lemma_payload_map_chat(fs: Seq<(Seq<char>, Jv)>, c: ChatV)
    requires
        keys_unique(fs),
        fields_wf(fs),
        sp_chat(fs) == Some(c),
    ensures
        obj_map(enc_fields(EventV::ChatMessage(c))) == obj_map(fs),
{
    let enc = enc_fields(EventV::ChatMessage(c));
    assert forall|k: Seq<char>|
        #[trigger] obj_map(enc).dom().contains(k) == obj_map(fs).dom().contains(k) && (obj_map(
            fs,
        ).dom().contains(k) ==> obj_map(enc)[k] == obj_map(fs)[k]) by {
        lemma_chat_at(fs, c, k);
    }
    assert(obj_map(enc).dom() =~= obj_map(fs).dom());
    assert(obj_map(enc) =~= obj_map(fs));
}

/// The payload equivalence: on every decodable line with an outbound token
/// other than `NAMES`, the written payload's object carries exactly the
/// same key-to-value map as the one the line carried; field order is all
/// that may move. Roster lines have their own law below, stated down to
/// their entries.
#[verifier::rlimit(100)]
#[verifier::spinoff_prover]
pub proof fn lemma_codec_payload_map(line: Seq<char>)
    requires
        sp_decode(line) is Some,
        sp_token(sp_decode(line).unwrap()) is Some,
        !(sp_decode(line).unwrap() is ServedConnections),
    ensures
        sp_split(line) is Some,
        obj_map(enc_fields(sp_decode(line).unwrap())) == obj_map(
            (crate::json_parse::sp_json(
                crate::event::sp_normalize(sp_split(line).unwrap().1),
            ).unwrap())->Obj_0,
        ),
{
    let ev = sp_decode(line).unwrap();
    let tok = sp_split(line).unwrap().0;
    let pay = sp_split(line).unwrap().1;
    let norm = crate::event::sp_normalize(pay);
    crate::json_laws::lemma_sp_json_wf(norm);
    let v = crate::json_parse::sp_json(norm).unwrap();
    let fs = v->Obj_0;
    assert(v == Jv::Obj(fs) && jv_wf(v));
    assert(keys_unique(fs) && fields_wf(fs));
    assert(ev == sp_dispatch_tok(sp_tok(tok), fs).unwrap());
    let t = sp_tok(tok);
    match t {
        Tok::Names => {
            assert(false);
        },
        Tok::Other => {
            assert(ev is Unknown);
            assert(false);
        },
        Tok::Msg => {
            let c = sp_chat(fs).unwrap();
            assert(ev == EventV::ChatMessage(c));
            lemma_payload_map_chat(fs, c);
        },
        _ => {
            let b = sp_base(fs, BodyKind::Plain).unwrap();
            assert(ev == crate::event::plain_eventv(t, b));
            assert(enc_fields(ev) == enc_base_fields(b)) by {
                match t {
                    Tok::WsError => {
                        assert(sp_token(ev) is None);
                        assert(false);
                    },
                    Tok::WsClose => {
                        assert(sp_token(ev) is None);
                        assert(false);
                    },
                    Tok::HandlerErr => {
                        assert(sp_token(ev) is None);
                        assert(false);
                    },
                    _ => {},
                }
            }
            lemma_payload_map_plain(fs, b);
        },
    }
}

} // verus!

verus! {

/// A roster entry that carries user fields only: what the codec itself
/// writes. An entry the server extends decodes, but what was dropped
/// cannot be written back.
pub open spec fn user_obj_plain(v: Jv) -> bool {
    v is Obj && (forall|i: int|
        0 <= i < (v->Obj_0).len() ==> ((#[trigger] (v->Obj_0)[i]).0 == "nick"@ || ((v->Obj_0)[
            i]).0 == "features"@ || ((v->Obj_0)[i]).0 == "id"@ || ((v->Obj_0)[i]).0
            == "createdDate"@))
}

/// A user lifted from an entry of user fields only, written back, maps
/// exactly as the entry it came from.
#[verifier::rlimit(100)]
#[verifier::spinoff_prover]
proof fn lemma_user_map(ufs: Seq<(Seq<char>, Jv)>, uv: UserV)
    requires
        keys_unique(ufs),
        fields_wf(ufs),
        sp_user(ufs) == Some(Some(uv)),
        user_obj_plain(Jv::Obj(ufs)),
    ensures
        obj_map(enc_user_fields(uv)) == obj_map(ufs),
{
    lemma_written_keys();
    assert((Jv::Obj(ufs))->Obj_0 == ufs);
    assert(forall|i: int|
        0 <= i < ufs.len() ==> ((#[trigger] ufs[i]).0 == "nick"@ || (ufs[i]).0 == "features"@ || (
        ufs[i]).0 == "id"@ || (ufs[i]).0 == "createdDate"@));
    // The entry carries no timestamp, so the whole base lift goes through.
    crate::json::lemma_obj_get_index(ufs, "timestamp"@);
    match obj_get(ufs, "timestamp"@) {
        Some(v) => {
            let i = choose|i: int| 0 <= i < ufs.len() && #[trigger] ufs[i] == ("timestamp"@, v);
            assert(ufs[i].0 == "timestamp"@);
            assert(false);
        },
        None => {},
    }
    assert(sp_timestamp(ufs) == Some(None::<i64>));
    // Every key is recognized, so the open bag is empty.
    lemma_unrec_sub(ufs, BodyKind::Plain);
    let u = unrecognized(ufs, BodyKind::Plain);
    if u.len() > 0 {
        assert(!recognized_key(u[0].0, BodyKind::Plain));
        let j = choose|j: int| 0 <= j < ufs.len() && u[0] == ufs[j];
        assert(u[0] == ufs[j]);
        assert(recognized_key(ufs[j].0, BodyKind::Plain));
        assert(false);
    }
    assert(u =~= Seq::<(Seq<char>, Jv)>::empty());
    let b = BaseV { user: Some(uv), timestamp: None, extra: u };
    assert(sp_base(ufs, BodyKind::Plain) == Some(b));
    lemma_payload_map_plain(ufs, b);
    assert(enc_base_fields(b) =~= enc_user_fields(uv)) by {
        assert(enc_base_fields(b) == enc_user_fields(uv) + Seq::<(Seq<char>, Jv)>::empty() + u);
    }
}

/// The lifted users of a roster, entry by entry.
proof fn lemma_sp_roster_users_index(xs: Seq<Jv>)
    requires
        crate::event::sp_roster_users(xs) is Some,
    ensures
        crate::event::sp_roster_users(xs).unwrap().len() == xs.len(),
        forall|i: int|
            0 <= i < xs.len() ==> crate::event::sp_roster_user(#[trigger] xs[i]) == Some(
                crate::event::sp_roster_users(xs).unwrap()[i],
            ),
    decreases xs,
{
    let us = crate::event::sp_roster_users(xs).unwrap();
    if xs.len() > 0 {
        let rest = crate::event::sp_roster_users(xs.drop_first()).unwrap();
        assert(us == seq![crate::event::sp_roster_user(xs.first()).unwrap()] + rest);
        lemma_sp_roster_users_index(xs.drop_first());
        assert forall|i: int| 0 <= i < xs.len() implies crate::event::sp_roster_user(
            #[trigger] xs[i],
        ) == Some(us[i]) by {
            if i == 0 {
                assert(us[0] == crate::event::sp_roster_user(xs.first()).unwrap());
            } else {
                assert(xs[i] == xs.drop_first()[i - 1]);
                assert(us[i] == rest[i - 1]);
            }
        }
    }
}

/// The written roster entries, entry by entry.
proof fn lemma_enc_roster_users_index(us: Seq<UserV>)
    ensures
        crate::event::enc_roster_users(us).len() == us.len(),
        forall|i: int|
            0 <= i < us.len() ==> #[trigger] crate::event::enc_roster_users(us)[i]
                == crate::event::enc_roster_user(us[i]),
    decreases us,
{
    if us.len() > 0 {
        lemma_enc_roster_users_index(us.drop_last());
        assert(crate::event::enc_roster_users(us) == crate::event::enc_roster_users(
            us.drop_last(),
        ).push(crate::event::enc_roster_user(us.last())));
        assert forall|i: int| 0 <= i < us.len() implies #[trigger] crate::event::enc_roster_users(
            us,
        )[i] == crate::event::enc_roster_user(us[i]) by {
            if i < us.len() - 1 {
                assert(us.drop_last()[i] == us[i]);
            } else {
                assert(us[i] == us.last());
            }
        }
    }
}

} // verus!

verus! {

/// The payload equivalence for roster lines whose entries carry user fields
/// only: the written payload maps as the original at every other key, and
/// under `users` the rewritten entries map entry for entry as the ones they
/// came from; only field order may move. (An entry the server extended
/// decodes, but the dropped fields cannot be written back, so such lines
/// are outside this law.)
#[verifier::rlimit(100)]
#[verifier::spinoff_prover]
pub proof fn lemma_payload_map_roster(fs: Seq<(Seq<char>, Jv)>, r: crate::event::RosterV)
    requires
        keys_unique(fs),
        fields_wf(fs),
        crate::event::sp_roster(fs) == Some(r),
        match obj_get(fs, "users"@) {
            Some(Jv::Arr(xs)) => forall|i: int|
                0 <= i < xs.len() ==> user_obj_plain(#[trigger] xs[i]),
            _ => false,
        },
    ensures
        ({
            let enc = enc_fields(EventV::ServedConnections(r));
            let ys = crate::event::enc_roster_users(r.users);
            match obj_get(fs, "users"@) {
                Some(Jv::Arr(xs)) => {
                    &&& obj_map(enc).dom() == obj_map(fs).dom()
                    &&& forall|k: Seq<char>|
                        k != "users"@ && #[trigger] obj_map(fs).dom().contains(k) ==> obj_map(
                            enc,
                        )[k] == obj_map(fs)[k]
                    &&& obj_map(fs).dom().contains("users"@)
                    &&& obj_map(enc)["users"@] == Jv::Arr(ys)
                    &&& obj_map(fs)["users"@] == Jv::Arr(xs)
                    &&& ys.len() == xs.len()
                    &&& forall|i: int|
                        0 <= i < xs.len() ==> (#[trigger] xs[i]) is Obj && ys[i] is Obj
                            && obj_map(ys[i]->Obj_0) == obj_map(xs[i]->Obj_0)
                },
                _ => false,
            }
        }),
{
    lemma_written_keys();
    reveal_strlit("users");
    reveal_strlit("connectioncount");
    reveal_strlit("nick");
    reveal_strlit("id");
    reveal_strlit("features");
    reveal_strlit("createdDate");
    reveal_strlit("timestamp");
    reveal_strlit("data");
    assert("users"@.len() == 5 && "connectioncount"@.len() == 15 && "nick"@.len() == 4
        && "id"@.len() == 2 && "features"@.len() == 8 && "createdDate"@.len() == 11
        && "timestamp"@.len() == 9 && "data"@.len() == 4);
    assert("users"@[0] == 'u');
    let b = r.base;
    let enc = enc_fields(EventV::ServedConnections(r));
    let ys = crate::event::enc_roster_users(r.users);
    let xs = (obj_get(fs, "users"@).unwrap())->Arr_0;
    assert(obj_get(fs, "users"@) == Some(Jv::Arr(xs)));
    let t = (obj_get(fs, "connectioncount"@).unwrap())->Num_0;
    assert(obj_get(fs, "connectioncount"@) == Some(Jv::Num(t)));
    assert(crate::event::sp_roster_users(xs) == Some(r.users));
    assert(t == crate::numbers::dec_digits(r.connection_count as nat)) by {
        if exists|n: u32| t == crate::numbers::dec_digits(n as nat) {
            let w = choose|n: u32| t == crate::numbers::dec_digits(n as nat);
            assert(t == crate::numbers::dec_digits(w as nat));
        }
    }
    // The written fields have unique keys.
    lemma_sp_base_parts(fs, BodyKind::Roster);
    lemma_unrec_sub(fs, BodyKind::Roster);
    lemma_unrec_wf(fs, BodyKind::Roster);
    lemma_enc_base(b, BodyKind::Roster);
    let dp2: Seq<(Seq<char>, Jv)> = seq![
        ("users"@, Jv::Arr(ys)),
        ("connectioncount"@, Jv::Num(crate::numbers::dec_digits(r.connection_count as nat))),
    ];
    assert(enc == dp2 + enc_base_fields(b));
    assert(keys_unique(dp2));
    assert forall|i: int, j: int|
        0 <= i < dp2.len() && 0 <= j < enc_base_fields(b).len() implies (#[trigger] dp2[i]).0 != (
    #[trigger] enc_base_fields(b)[j]).0 by {
        assert(dp2[i].0 == "users"@ || dp2[i].0 == "connectioncount"@);
        assert(recognized_key(dp2[i].0, BodyKind::Roster));
        lemma_base_field_keys(fs, b, j);
    }
    lemma_unique_app(dp2, enc_base_fields(b));
    // Key by key.
    assert forall|k: Seq<char>| true implies #[trigger] obj_get(enc, k) == (if k == "users"@ {
        Some(Jv::Arr(ys))
    } else if k == "connectioncount"@ {
        Some(Jv::Num(crate::numbers::dec_digits(r.connection_count as nat)))
    } else {
        obj_get(fs, k)
    }) by {
        lemma_obj_get_app(dp2, enc_base_fields(b), k);
        lemma_get2(
            ("users"@, Jv::Arr(ys)),
            ("connectioncount"@, Jv::Num(crate::numbers::dec_digits(r.connection_count as nat))),
            k,
        );
        if k != "users"@ && k != "connectioncount"@ {
            lemma_base_get(fs, BodyKind::Roster, b, k);
        }
    }
    crate::json::lemma_obj_get_map(fs, "users"@);
    crate::json::lemma_obj_get_map(fs, "connectioncount"@);
    assert(obj_map(enc).dom() =~= obj_map(fs).dom()) by {
        assert forall|k: Seq<char>|
            #[trigger] obj_map(enc).dom().contains(k) == obj_map(fs).dom().contains(k) by {
            crate::json::lemma_obj_get_map(enc, k);
            crate::json::lemma_obj_get_map(fs, k);
        }
    }
    assert forall|k: Seq<char>|
        k != "users"@ && #[trigger] obj_map(fs).dom().contains(k) implies obj_map(enc)[k]
        == obj_map(fs)[k] by {
        crate::json::lemma_obj_get_map(enc, k);
        crate::json::lemma_obj_get_map(fs, k);
    }
    assert(obj_map(enc)["users"@] == Jv::Arr(ys)) by {
        crate::json::lemma_obj_get_map(enc, "users"@);
    }
    // Entry by entry.
    lemma_sp_roster_users_index(xs);
    lemma_enc_roster_users_index(r.users);
    assert(jv_wf(Jv::Arr(xs))) by {
        crate::json::lemma_obj_get_index(fs, "users"@);
        crate::json::lemma_fields_wf_index(fs);
        let j = choose|j: int| 0 <= j < fs.len() && #[trigger] fs[j] == ("users"@, Jv::Arr(xs));
        assert(jv_wf(fs[j].1));
    }
    crate::json::lemma_arr_wf_index(xs);
    assert forall|i: int| 0 <= i < xs.len() implies (#[trigger] xs[i]) is Obj && ys[i] is Obj
        && obj_map(ys[i]->Obj_0) == obj_map(xs[i]->Obj_0) by {
        assert(crate::event::sp_roster_user(xs[i]) == Some(r.users[i]));
        assert(xs[i] is Obj);
        let ufs = (xs[i])->Obj_0;
        assert(crate::event::sp_user(ufs) == Some(Some(r.users[i])));
        assert(jv_wf(xs[i]));
        assert(keys_unique(ufs) && fields_wf(ufs));
        assert(user_obj_plain(xs[i]));
        lemma_user_map(ufs, r.users[i]);
        assert(ys[i] == crate::event::enc_roster_user(r.users[i]));
        assert(ys[i] == Jv::Obj(enc_user_fields(r.users[i])));
    }
}

/// Every written base field's key differs from the roster's own two keys.
proof fn lemma_base_field_keys(fs: Seq<(Seq<char>, Jv)>, b: BaseV, j: int)
    requires
        keys_unique(fs),
        sp_base(fs, BodyKind::Roster) == Some(b),
        0 <= j < enc_base_fields(b).len(),
    ensures
        enc_base_fields(b)[j].0 != "users"@,
        enc_base_fields(b)[j].0 != "connectioncount"@,
{
    lemma_written_keys();
    reveal_strlit("users");
    reveal_strlit("connectioncount");
    reveal_strlit("timestamp");
    assert("users"@.len() == 5 && "connectioncount"@.len() == 15 && "timestamp"@.len() == 9);
    lemma_sp_base_parts(fs, BodyKind::Roster);
    lemma_unrec_sub(fs, BodyKind::Roster);
    let up: Seq<(Seq<char>, Jv)> = match b.user {
        Some(u) => enc_user_fields(u),
        None => Seq::empty(),
    };
    let tp: Seq<(Seq<char>, Jv)> = match b.timestamp {
        Some(ts) => seq![("timestamp"@, Jv::Num(crate::numbers::int_digits(ts as int)))],
        None => Seq::empty(),
    };
    assert(enc_base_fields(b) == up + tp + b.extra);
    if j < up.len() {
        match b.user {
            Some(u) => {
                lemma_enc_user(u);
                assert(enc_base_fields(b)[j] == up[j]);
                assert(recognized_key((enc_user_fields(u)[j]).0, BodyKind::Roster));
                assert((enc_user_fields(u)[j]).0 != "users"@);
                assert((enc_user_fields(u)[j]).0 != "connectioncount"@);
            },
            None => {},
        }
    } else if j < up.len() + tp.len() {
        assert(enc_base_fields(b)[j] == tp[j - up.len()]);
    } else {
        assert(enc_base_fields(b)[j] == b.extra[j - up.len() - tp.len()]);
        assert(!recognized_key(b.extra[j - up.len() - tp.len()].0, BodyKind::Roster));
    }
}

} // verus!

verus! {

/// What a roster writes back has unique keys and well-formed values.
#[verifier::rlimit(100)]
#[verifier::spinoff_prover]
proof fn lemma_enc_sc_fields(fs: Seq<(Seq<char>, Jv)>, r: crate::event::RosterV)
    requires
        keys_unique(fs),
        fields_wf(fs),
        crate::event::sp_roster(fs) == Some(r),
    ensures
        keys_unique(enc_fields(EventV::ServedConnections(r))),
        fields_wf(enc_fields(EventV::ServedConnections(r))),
{
    lemma_written_keys();
    reveal_strlit("users");
    reveal_strlit("connectioncount");
    assert("users"@.len() == 5 && "connectioncount"@.len() == 15);
    let b = r.base;
    let xs = (obj_get(fs, "users"@).unwrap())->Arr_0;
    assert(obj_get(fs, "users"@) == Some(Jv::Arr(xs)));
    assert(crate::event::sp_roster_users(xs) == Some(r.users));
    lemma_sp_base_parts(fs, BodyKind::Roster);
    lemma_unrec_sub(fs, BodyKind::Roster);
    lemma_unrec_wf(fs, BodyKind::Roster);
    lemma_enc_base(b, BodyKind::Roster);
    // Every lifted user can be written back.
    lemma_sp_roster_users_index(xs);
    assert forall|i: int| 0 <= i < r.users.len() implies user_wf(#[trigger] r.users[i]) by {
        assert(crate::event::sp_roster_user(xs[i]) == Some(r.users[i]));
        let ufs = (xs[i])->Obj_0;
        assert(sp_user(ufs) == Some(Some(r.users[i])));
        lemma_sp_user_wf(ufs);
    }
    // The written entries are well formed.
    lemma_enc_roster_users_index(r.users);
    let ys = crate::event::enc_roster_users(r.users);
    crate::json::lemma_arr_wf_index(ys);
    assert forall|i: int| 0 <= i < ys.len() implies jv_wf(#[trigger] ys[i]) by {
        assert(ys[i] == crate::event::enc_roster_user(r.users[i]));
        lemma_enc_user(r.users[i]);
        assert(ys[i] == Jv::Obj(enc_user_fields(r.users[i])));
    }
    let dp2: Seq<(Seq<char>, Jv)> = seq![
        ("users"@, Jv::Arr(ys)),
        ("connectioncount"@, Jv::Num(crate::numbers::dec_digits(r.connection_count as nat))),
    ];
    assert(enc_fields(EventV::ServedConnections(r)) == dp2 + enc_base_fields(b));
    assert(keys_unique(dp2));
    assert forall|i: int, j: int|
        0 <= i < dp2.len() && 0 <= j < enc_base_fields(b).len() implies (#[trigger] dp2[i]).0 != (
    #[trigger] enc_base_fields(b)[j]).0 by {
        lemma_base_field_keys(fs, b, j);
        assert(dp2[i].0 == "users"@ || dp2[i].0 == "connectioncount"@);
    }
    lemma_unique_app(dp2, enc_base_fields(b));
    crate::numbers::lemma_dec_digits_valid_num(r.connection_count as nat);
    assert(fields_wf(dp2)) by {
        assert(dp2.first() == ("users"@, Jv::Arr(ys)));
        assert(dp2.drop_first() =~= seq![
            (
                "connectioncount"@,
                Jv::Num(crate::numbers::dec_digits(r.connection_count as nat)),
            ),
        ]);
        let d1 = dp2.drop_first();
        assert(d1.drop_first() =~= Seq::<(Seq<char>, Jv)>::empty());
        assert(fields_wf(Seq::<(Seq<char>, Jv)>::empty()));
        assert(fields_wf(d1.drop_first()) == fields_wf(Seq::<(Seq<char>, Jv)>::empty()));
        assert(jv_wf(d1.first().1));
        assert(fields_wf(d1));
        assert(fields_wf(dp2.drop_first()) == fields_wf(d1));
        assert(jv_wf(dp2.first().1));
    }
    lemma_wf_app(dp2, enc_base_fields(b));
}

} // verus!

verus! {

/// The payload equivalence for roster lines, at the line level: field order
/// inside the rewritten entries is all that may move.
#[verifier::rlimit(100)]
#[verifier::spinoff_prover]
pub proof fn lemma_codec_payload_map_names(line: Seq<char>)
    requires
        sp_decode(line) is Some,
        sp_decode(line).unwrap() is ServedConnections,
        ({
            let fs = (crate::json_parse::sp_json(
                crate::event::sp_normalize(sp_split(line).unwrap().1),
            ).unwrap())->Obj_0;
            match obj_get(fs, "users"@) {
                Some(Jv::Arr(xs)) => forall|i: int|
                    0 <= i < xs.len() ==> user_obj_plain(#[trigger] xs[i]),
                _ => false,
            }
        }),
    ensures
        sp_split(line) is Some,
        ({
            let fs = (crate::json_parse::sp_json(
                crate::event::sp_normalize(sp_split(line).unwrap().1),
            ).unwrap())->Obj_0;
            let ev = sp_decode(line).unwrap();
            let enc = enc_fields(ev);
            let ys = crate::event::enc_roster_users((ev->ServedConnections_0).users);
            match obj_get(fs, "users"@) {
                Some(Jv::Arr(xs)) => {
                    &&& obj_map(enc).dom() == obj_map(fs).dom()
                    &&& forall|k: Seq<char>|
                        k != "users"@ && #[trigger] obj_map(fs).dom().contains(k) ==> obj_map(
                            enc,
                        )[k] == obj_map(fs)[k]
                    &&& obj_map(enc)["users"@] == Jv::Arr(ys)
                    &&& obj_map(fs)["users"@] == Jv::Arr(xs)
                    &&& ys.len() == xs.len()
                    &&& forall|i: int|
                        0 <= i < xs.len() ==> (#[trigger] xs[i]) is Obj && ys[i] is Obj
                            && obj_map(ys[i]->Obj_0) == obj_map(xs[i]->Obj_0)
                },
                _ => false,
            }
        }),
{
    let ev = sp_decode(line).unwrap();
    let tok = sp_split(line).unwrap().0;
    let pay = sp_split(line).unwrap().1;
    let norm = crate::event::sp_normalize(pay);
    crate::json_laws::lemma_sp_json_wf(norm);
    let v = crate::json_parse::sp_json(norm).unwrap();
    let fs = v->Obj_0;
    assert(v == Jv::Obj(fs) && jv_wf(v));
    assert(keys_unique(fs) && fields_wf(fs));
    assert(ev == sp_dispatch_tok(sp_tok(tok), fs).unwrap());
    let t = sp_tok(tok);
    match t {
        Tok::Names => {
            let r = crate::event::sp_roster(fs).unwrap();
            assert(ev == EventV::ServedConnections(r));
            assert((ev->ServedConnections_0) == r);
            lemma_payload_map_roster(fs, r);
        },
        Tok::Msg => {
            assert(false);
        },
        Tok::Other => {
            assert(ev is Unknown);
            assert(false);
        },
        _ => {
            let b = sp_base(fs, BodyKind::Plain).unwrap();
            assert(ev == crate::event::plain_eventv(t, b));
            assert(!(ev is ServedConnections));
            assert(false);
        },
    }
}

} // verus!

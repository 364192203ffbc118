//! The CDN resource client: every decision of the fetch-and-memoize flow,
//! verified. The caller performs the HTTP work and hands the bodies in;
//! the collections, their maps and the cache document are computed here.

use crate::ChatError;
use crate::cache::JsonCache;
use crate::emote::{Emote, EmoteV, enc_emote_fields, sp_emote};
use crate::flair::{Flair, FlairV, enc_flair_fields, sp_flair};
use crate::json::{Jv, JsonValue, lemma_view_arr_index, lemma_view_arr_len, view_arr, view_fields};
use vstd::prelude::*;

verus! {

/// Relies on url::Url::parse and url::Url::join: the resolved address, a
/// function of the two texts alone.
pub uninterp spec fn url_join_of(base: Seq<char>, rel: Seq<char>) -> Option<Seq<char>>;

/// Relies on url::Url::parse and url::Url::join to resolve a relative
/// address against a base address.
#[verifier::external_body]
fn url_join(base: &str, rel: &str) -> (r: Option<String>)
    ensures
        match r {
            Some(s) => url_join_of(base@, rel@) == Some(s@),
            None => url_join_of(base@, rel@) is None,
        },
{
    match url::Url::parse(base) {
        Ok(u) => match u.join(rel) {
            Ok(j) => Some(j.as_str().to_string()),
            Err(_) => None,
        },
        Err(_) => None,
    }
}

/// The emotes an array of objects stands for.
pub open spec fn sp_emotes(xs: Seq<Jv>) -> Option<Seq<EmoteV>>
    decreases xs,
{
    if xs.len() == 0 {
        Some(Seq::empty())
    } else {
        match sp_emote(xs.first()) {
            Some(e) => match sp_emotes(xs.drop_first()) {
                Some(rest) => Some(seq![e] + rest),
                None => None,
            },
            None => None,
        }
    }
}

/// The flairs an array of objects stands for.
pub open spec fn sp_flairs(xs: Seq<Jv>) -> Option<Seq<FlairV>>
    decreases xs,
{
    if xs.len() == 0 {
        Some(Seq::empty())
    } else {
        match sp_flair(xs.first()) {
            Some(f) => match sp_flairs(xs.drop_first()) {
                Some(rest) => Some(seq![f] + rest),
                None => None,
            },
            None => None,
        }
    }
}

pub open spec fn view_emotes(xs: Seq<Emote>) -> Seq<EmoteV>
    decreases xs,
{
    if xs.len() == 0 {
        Seq::empty()
    } else {
        view_emotes(xs.drop_last()).push(xs.last()@)
    }
}

pub open spec fn view_flairs(xs: Seq<Flair>) -> Seq<FlairV>
    decreases xs,
{
    if xs.len() == 0 {
        Seq::empty()
    } else {
        view_flairs(xs.drop_last()).push(xs.last()@)
    }
}

proof fn lemma_view_emotes_len(xs: Seq<Emote>)
    ensures
        view_emotes(xs).len() == xs.len(),
    decreases xs,
{
    if xs.len() > 0 {
        lemma_view_emotes_len(xs.drop_last());
        assert(view_emotes(xs) == view_emotes(xs.drop_last()).push(xs.last()@));
    }
}

pub proof fn lemma_view_emotes_index(xs: Seq<Emote>, i: int)
    requires
        0 <= i < xs.len(),
    ensures
        view_emotes(xs).len() == xs.len(),
        view_emotes(xs)[i] == xs[i]@,
    decreases xs,
{
    lemma_view_emotes_len(xs);
    lemma_view_emotes_len(xs.drop_last());
    assert(view_emotes(xs) == view_emotes(xs.drop_last()).push(xs.last()@));
    if i < xs.len() - 1 {
        lemma_view_emotes_index(xs.drop_last(), i);
        assert(xs.drop_last()[i] == xs[i]);
    } else {
        assert(xs[i] == xs.last());
    }
}

proof fn lemma_view_flairs_len(xs: Seq<Flair>)
    ensures
        view_flairs(xs).len() == xs.len(),
    decreases xs,
{
    if xs.len() > 0 {
        lemma_view_flairs_len(xs.drop_last());
        assert(view_flairs(xs) == view_flairs(xs.drop_last()).push(xs.last()@));
    }
}

pub proof fn lemma_view_flairs_index(xs: Seq<Flair>, i: int)
    requires
        0 <= i < xs.len(),
    ensures
        view_flairs(xs).len() == xs.len(),
        view_flairs(xs)[i] == xs[i]@,
    decreases xs,
{
    lemma_view_flairs_len(xs);
    lemma_view_flairs_len(xs.drop_last());
    assert(view_flairs(xs) == view_flairs(xs.drop_last()).push(xs.last()@));
    if i < xs.len() - 1 {
        lemma_view_flairs_index(xs.drop_last(), i);
        assert(xs.drop_last()[i] == xs[i]);
    } else {
        assert(xs[i] == xs.last());
    }
}

/// Decode the emote collection body the CDN served: a JSON array of emote
/// records. A failure leaves nothing behind.
#[verifier::loop_isolation(false)]
pub fn decode_emote_list(body: &str) -> (r: Result<Vec<Emote>, ChatError>)
    ensures
        match r {
            Ok(out) => (match crate::json_parse::sp_json(body@) {
                Some(Jv::Arr(xs)) => sp_emotes(xs) == Some(view_emotes(out@)),
                _ => false,
            }),
            Err(e) => e is FetchError && (match crate::json_parse::sp_json(body@) {
                Some(Jv::Arr(xs)) => sp_emotes(xs) is None,
                _ => true,
            }),
        },
{
    let v = match crate::json_parse::parse_text(body) {
        Some(v) => v,
        None => {
            return Err(
                ChatError::FetchError(String::from_str("the emote collection is not valid")),
            );
        },
    };
    proof {
        crate::json::lemma_view_unfold(v);
    }
    let xs = match v {
        JsonValue::Arr(xs) => xs,
        _ => {
            return Err(
                ChatError::FetchError(String::from_str("the emote collection is not an array")),
            );
        },
    };
    let ghost va = view_arr(xs@);
    proof {
        lemma_view_arr_len(xs@);
        assert forall|j: int| 0 <= j < xs@.len() implies #[trigger] va[j] == xs@[j]@ by {
            lemma_view_arr_index(xs@, j);
        }
    }
    let mut out: Vec<Emote> = Vec::new();
    let mut i: usize = 0;
    proof {
        assert(va.skip(0) =~= va);
        assert(view_emotes(out@) =~= Seq::<EmoteV>::empty());
    }
    while i < xs.len()
        invariant
            i <= xs@.len(),
            out@.len() == i,
            view_emotes(out@).len() == i,
            match sp_emotes(va.skip(i as int)) {
                None => sp_emotes(va) is None,
                Some(rest) => sp_emotes(va) == Some(view_emotes(out@) + rest),
            },
        decreases xs@.len() - i,
    {
        proof {
            assert(va.skip(i as int).first() == va[i as int]);
            assert(va.skip(i as int).drop_first() =~= va.skip(i + 1));
        }
        match crate::emote::decode_emote(&xs[i]) {
            Ok(e) => {
                let ghost old_out = out@;
                let ghost ev = e@;
                out.push(e);
                proof {
                    lemma_view_emotes_len(out@);
                    assert(out@.drop_last() =~= old_out);
                    assert(view_emotes(out@) == view_emotes(old_out).push(ev));
                    if sp_emotes(va.skip(i + 1)) is Some {
                        let rest2 = sp_emotes(va.skip(i + 1)).unwrap();
                        assert(sp_emotes(va.skip(i as int)) == Some((seq![ev] + rest2)));
                        assert(view_emotes(old_out) + (seq![ev] + rest2) =~= view_emotes(out@)
                            + rest2);
                    }
                }
                i = i + 1;
            },
            Err(_) => {
                proof {
                    assert(sp_emotes(va.skip(i as int)) is None);
                }
                return Err(
                    ChatError::FetchError(String::from_str("an emote record has the wrong shape")),
                );
            },
        }
    }
    proof {
        assert(va.skip(xs@.len() as int) =~= Seq::<Jv>::empty());
        assert(view_emotes(out@) + Seq::<EmoteV>::empty() =~= view_emotes(out@));
    }
    Ok(out)
}

/// Decode the flair collection body the CDN served: a JSON array of flair
/// records. A failure leaves nothing behind.
#[verifier::loop_isolation(false)]
pub fn decode_flair_list(body: &str) -> (r: Result<Vec<Flair>, ChatError>)
    ensures
        match r {
            Ok(out) => (match crate::json_parse::sp_json(body@) {
                Some(Jv::Arr(xs)) => sp_flairs(xs) == Some(view_flairs(out@)),
                _ => false,
            }),
            Err(e) => e is FetchError && (match crate::json_parse::sp_json(body@) {
                Some(Jv::Arr(xs)) => sp_flairs(xs) is None,
                _ => true,
            }),
        },
{
    let v = match crate::json_parse::parse_text(body) {
        Some(v) => v,
        None => {
            return Err(
                ChatError::FetchError(String::from_str("the flair collection is not valid")),
            );
        },
    };
    proof {
        crate::json::lemma_view_unfold(v);
    }
    let xs = match v {
        JsonValue::Arr(xs) => xs,
        _ => {
            return Err(
                ChatError::FetchError(String::from_str("the flair collection is not an array")),
            );
        },
    };
    let ghost va = view_arr(xs@);
    proof {
        lemma_view_arr_len(xs@);
        assert forall|j: int| 0 <= j < xs@.len() implies #[trigger] va[j] == xs@[j]@ by {
            lemma_view_arr_index(xs@, j);
        }
    }
    let mut out: Vec<Flair> = Vec::new();
    let mut i: usize = 0;
    proof {
        assert(va.skip(0) =~= va);
        assert(view_flairs(out@) =~= Seq::<FlairV>::empty());
    }
    while i < xs.len()
        invariant
            i <= xs@.len(),
            out@.len() == i,
            view_flairs(out@).len() == i,
            match sp_flairs(va.skip(i as int)) {
                None => sp_flairs(va) is None,
                Some(rest) => sp_flairs(va) == Some(view_flairs(out@) + rest),
            },
        decreases xs@.len() - i,
    {
        proof {
            assert(va.skip(i as int).first() == va[i as int]);
            assert(va.skip(i as int).drop_first() =~= va.skip(i + 1));
        }
        match crate::flair::decode_flair(&xs[i]) {
            Ok(f) => {
                let ghost old_out = out@;
                let ghost fv = f@;
                out.push(f);
                proof {
                    lemma_view_flairs_len(out@);
                    assert(out@.drop_last() =~= old_out);
                    assert(view_flairs(out@) == view_flairs(old_out).push(fv));
                    if sp_flairs(va.skip(i + 1)) is Some {
                        let rest2 = sp_flairs(va.skip(i + 1)).unwrap();
                        assert(sp_flairs(va.skip(i as int)) == Some((seq![fv] + rest2)));
                        assert(view_flairs(old_out) + (seq![fv] + rest2) =~= view_flairs(out@)
                            + rest2);
                    }
                }
                i = i + 1;
            },
            Err(_) => {
                proof {
                    assert(sp_flairs(va.skip(i as int)) is None);
                }
                return Err(
                    ChatError::FetchError(String::from_str("a flair record has the wrong shape")),
                );
            },
        }
    }
    proof {
        assert(va.skip(xs@.len() as int) =~= Seq::<Jv>::empty());
        assert(view_flairs(out@) + Seq::<FlairV>::empty() =~= view_flairs(out@));
    }
    Ok(out)
}

/// Whether an image still needs its bytes: they are absent or empty.
pub fn image_needs_bytes(im: &crate::emote::Image) -> (r: bool)
    ensures
        r == (match im@.bytes {
            Some(bs) => bs.len() == 0,
            None => true,
        }),
{
    match &im.bytes {
        Some(bs) => bs.len() == 0,
        None => true,
    }
}

/// Fill an image's bytes with what was fetched for its address.
pub fn set_image_bytes(im: &mut crate::emote::Image, bytes: Vec<u8>)
    ensures
        final(im)@.bytes == Some(bytes@),
        final(im)@.url == old(im)@.url,
        final(im)@.name == old(im)@.name,
        final(im)@.mime == old(im)@.mime,
        final(im)@.height == old(im)@.height,
        final(im)@.width == old(im)@.width,
{
    im.bytes = Some(bytes);
}

/// The map of a collection: each record under its stable key, rebuilt
/// wholesale, in collection order.
#[verifier::loop_isolation(false)]
pub fn emotes_to_map(list: Vec<Emote>) -> (out: Vec<(String, Emote)>)
    ensures
        out@.len() == list@.len(),
        forall|i: int|
            0 <= i < list@.len() ==> (#[trigger] out@[i]).0@ == list@[i]@.prefix
                && out@[i].1@ == list@[i]@,
{
    let ghost orig = list@;
    let mut list = list;
    let mut out: Vec<(String, Emote)> = Vec::new();
    proof {
        assert(list@ =~= orig.skip(0));
    }
    while list.len() > 0
        invariant
            out@.len() + list@.len() == orig.len(),
            list@ =~= orig.skip(out@.len() as int),
            forall|j: int|
                0 <= j < out@.len() ==> (#[trigger] out@[j]).0@ == orig[j]@.prefix && out@[j].1@
                    == orig[j]@,
        decreases list@.len(),
    {
        let ghost n = out@.len() as int;
        proof {
            assert(list@[0] == orig[n]);
        }
        let e = list.remove(0);
        let key = e.prefix.clone();
        out.push((key, e));
        proof {
            assert(list@ =~= orig.skip(n + 1));
        }
    }
    out
}

/// The map of a flair collection: each record under its stable name.
#[verifier::loop_isolation(false)]
pub fn flairs_to_map(list: Vec<Flair>) -> (out: Vec<(String, Flair)>)
    ensures
        out@.len() == list@.len(),
        forall|i: int|
            0 <= i < list@.len() ==> (#[trigger] out@[i]).0@ == list@[i]@.name
                && out@[i].1@ == list@[i]@,
{
    let ghost orig = list@;
    let mut list = list;
    let mut out: Vec<(String, Flair)> = Vec::new();
    proof {
        assert(list@ =~= orig.skip(0));
    }
    while list.len() > 0
        invariant
            out@.len() + list@.len() == orig.len(),
            list@ =~= orig.skip(out@.len() as int),
            forall|j: int|
                0 <= j < out@.len() ==> (#[trigger] out@[j]).0@ == orig[j]@.name && out@[j].1@
                    == orig[j]@,
        decreases list@.len(),
    {
        let ghost n = out@.len() as int;
        proof {
            assert(list@[0] == orig[n]);
        }
        let f = list.remove(0);
        let key = f.name.clone();
        out.push((key, f));
        proof {
            assert(list@ =~= orig.skip(n + 1));
        }
    }
    out
}

/// The CDN resource client: the base address and the persisted cache.
#[derive(Debug)]
pub struct CdnClient {
    pub url: String,
    pub cache: Option<JsonCache>,
}

impl CdnClient {
    /// A client for the given base address, with or without a persisted
    /// cache.
    pub fn new(url: String, cache: Option<JsonCache>) -> (c: CdnClient)
        ensures
            c.url@ == url@,
            c.cache == cache,
    {
        CdnClient { url, cache }
    }

    /// The address the emote collection is fetched from.
    pub fn emotes_endpoint(&self) -> (r: Result<String, ChatError>)
        ensures
            match r {
                Ok(s) => url_join_of(self.url@, "emotes/emotes.json"@) == Some(s@),
                Err(e) => e is FetchError && url_join_of(self.url@, "emotes/emotes.json"@) is None,
            },
    {
        match url_join(self.url.as_str(), "emotes/emotes.json") {
            Some(s) => Ok(s),
            None => Err(ChatError::FetchError(String::from_str("the CDN address is not valid"))),
        }
    }

    /// The address the flair collection is fetched from.
    pub fn flairs_endpoint(&self) -> (r: Result<String, ChatError>)
        ensures
            match r {
                Ok(s) => url_join_of(self.url@, "flairs/flairs.json"@) == Some(s@),
                Err(e) => e is FetchError && url_join_of(self.url@, "flairs/flairs.json"@) is None,
            },
    {
        match url_join(self.url.as_str(), "flairs/flairs.json") {
            Some(s) => Ok(s),
            None => Err(ChatError::FetchError(String::from_str("the CDN address is not valid"))),
        }
    }
}

} // verus!

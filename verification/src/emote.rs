//! The CDN resource records: images and emotes, with their JSON shapes.

use crate::json::{Jv, JsonValue, lemma_view_arr_index, lemma_view_arr_len, lemma_view_fields_index,
    lemma_view_fields_len, obj_get, view_arr, view_fields};
use crate::numbers::{canon_u8, canon_u16, dec_digits};
use vstd::prelude::*;

verus! {

/// One image of a resource record. Its bytes are absent until fetched.
#[derive(Debug, Clone, PartialEq)]
pub struct Image {
    pub url: String,
    pub name: String,
    pub mime: String,
    pub height: u16,
    pub width: u16,
    pub bytes: Option<Vec<u8>>,
}

/// The view of an [`Image`].
pub struct ImageV {
    pub url: Seq<char>,
    pub name: Seq<char>,
    pub mime: Seq<char>,
    pub height: u16,
    pub width: u16,
    pub bytes: Option<Seq<u8>>,
}

impl View for Image {
    type V = ImageV;

    open spec fn view(&self) -> ImageV {
        ImageV {
            url: self.url@,
            name: self.name@,
            mime: self.mime@,
            height: self.height,
            width: self.width,
            bytes: match self.bytes {
                Some(b) => Some(b@),
                None => None,
            },
        }
    }
}

/// One emote record: its stable key, provenance, and images.
#[derive(Debug, Clone, PartialEq)]
pub struct Emote {
    pub prefix: String,
    pub creator: Option<String>,
    pub twitch: bool,
    pub theme: u8,
    pub minimum_sub_tier: u8,
    pub image: Vec<Image>,
}

/// The view of an [`Emote`].
pub struct EmoteV {
    pub prefix: Seq<char>,
    pub creator: Option<Seq<char>>,
    pub twitch: bool,
    pub theme: u8,
    pub minimum_sub_tier: u8,
    pub image: Seq<ImageV>,
}

pub open spec fn view_images(xs: Seq<Image>) -> Seq<ImageV>
    decreases xs,
{
    if xs.len() == 0 {
        Seq::empty()
    } else {
        view_images(xs.drop_last()).push(xs.last()@)
    }
}

impl View for Emote {
    type V = EmoteV;

    open spec fn view(&self) -> EmoteV {
        EmoteV {
            prefix: self.prefix@,
            creator: match self.creator {
                Some(c) => Some(c@),
                None => None,
            },
            twitch: self.twitch,
            theme: self.theme,
            minimum_sub_tier: self.minimum_sub_tier,
            image: view_images(self.image@),
        }
    }
}

// ---------------------------------------------------------------------------
// The JSON shape of an image.
// ---------------------------------------------------------------------------
/// The bytes of an array of byte-sized numbers, if that is what it is.
pub open spec fn sp_bytes(xs: Seq<Jv>) -> Option<Seq<u8>>
    decreases xs,
{
    if xs.len() == 0 {
        Some(Seq::empty())
    } else {
        match xs.first() {
            Jv::Num(t) => match canon_u8(t) {
                Some(b) => match sp_bytes(xs.drop_first()) {
                    Some(rest) => Some(seq![b] + rest),
                    None => None,
                },
                None => None,
            },
            _ => None,
        }
    }
}

/// The image an object stands for: the exact mathematical statement of
/// `decode_image`. Fields the image does not name are ignored, so a record
/// the server extends still reads.
pub open spec fn sp_image(v: Jv) -> Option<ImageV> {
    match v {
        Jv::Obj(fs) => {
            {
                let url = match obj_get(fs, "url"@) {
                    Some(Jv::Str(s)) => Some(s),
                    _ => None::<Seq<char>>,
                };
                let name = match obj_get(fs, "name"@) {
                    Some(Jv::Str(s)) => Some(s),
                    _ => None::<Seq<char>>,
                };
                let mime = match obj_get(fs, "mime"@) {
                    Some(Jv::Str(s)) => Some(s),
                    _ => None::<Seq<char>>,
                };
                let height = match obj_get(fs, "height"@) {
                    Some(Jv::Num(t)) => canon_u16(t),
                    _ => None::<u16>,
                };
                let width = match obj_get(fs, "width"@) {
                    Some(Jv::Num(t)) => canon_u16(t),
                    _ => None::<u16>,
                };
                let bytes = match obj_get(fs, "bytes"@) {
                    None => Some(None::<Seq<u8>>),
                    Some(Jv::Null) => Some(None::<Seq<u8>>),
                    Some(Jv::Arr(xs)) => match sp_bytes(xs) {
                        Some(bs) => Some(Some(bs)),
                        None => None,
                    },
                    Some(_) => None,
                };
                match (url, name, mime, height, width, bytes) {
                    (Some(url), Some(name), Some(mime), Some(h), Some(w), Some(bs)) => Some(
                        ImageV { url, name, mime, height: h, width: w, bytes: bs },
                    ),
                    _ => None,
                }
            }
        },
        _ => None,
    }
}

/// The object an image writes back: every field in a fixed order, the bytes
/// only once fetched.
pub open spec fn enc_image_fields(im: ImageV) -> Seq<(Seq<char>, Jv)> {
    seq![
        ("url"@, Jv::Str(im.url)),
        ("name"@, Jv::Str(im.name)),
        ("mime"@, Jv::Str(im.mime)),
        ("height"@, Jv::Num(dec_digits(im.height as nat))),
        ("width"@, Jv::Num(dec_digits(im.width as nat))),
    ] + (match im.bytes {
        Some(bs) => seq![("bytes"@, Jv::Arr(byte_values(bs)))],
        None => Seq::empty(),
    })
}

/// Bytes as JSON number values.
pub open spec fn byte_values(bs: Seq<u8>) -> Seq<Jv>
    decreases bs,
{
    if bs.len() == 0 {
        Seq::empty()
    } else {
        byte_values(bs.drop_last()).push(Jv::Num(dec_digits(bs.last() as nat)))
    }
}

// ---------------------------------------------------------------------------
// The JSON shape of an emote.
// ---------------------------------------------------------------------------
/// The images of an array of image objects.
pub open spec fn sp_images(xs: Seq<Jv>) -> Option<Seq<ImageV>>
    decreases xs,
{
    if xs.len() == 0 {
        Some(Seq::empty())
    } else {
        match sp_image(xs.first()) {
            Some(im) => match sp_images(xs.drop_first()) {
                Some(rest) => Some(seq![im] + rest),
                None => None,
            },
            None => None,
        }
    }
}

/// The emote an object stands for: the exact mathematical statement of
/// `decode_emote`. Fields the emote does not name are ignored, so a record
/// the server extends still reads.
pub open spec fn sp_emote(v: Jv) -> Option<EmoteV> {
    match v {
        Jv::Obj(fs) => {
            {
                let prefix = match obj_get(fs, "prefix"@) {
                    Some(Jv::Str(s)) => Some(s),
                    _ => None::<Seq<char>>,
                };
                let creator = match obj_get(fs, "creator"@) {
                    None => Some(None::<Seq<char>>),
                    Some(Jv::Null) => Some(None::<Seq<char>>),
                    Some(Jv::Str(s)) => Some(Some(s)),
                    Some(_) => None,
                };
                let twitch = match obj_get(fs, "twitch"@) {
                    Some(Jv::Bool(b)) => Some(b),
                    _ => None::<bool>,
                };
                let theme = match obj_get(fs, "theme"@) {
                    Some(Jv::Num(t)) => canon_u8(t),
                    _ => None::<u8>,
                };
                let tier = match obj_get(fs, "minimumSubTier"@) {
                    Some(Jv::Num(t)) => canon_u8(t),
                    _ => None::<u8>,
                };
                let image = match obj_get(fs, "image"@) {
                    Some(Jv::Arr(xs)) => sp_images(xs),
                    _ => None::<Seq<ImageV>>,
                };
                match (prefix, creator, twitch, theme, tier, image) {
                    (Some(p), Some(c), Some(tw), Some(th), Some(ti), Some(im)) => Some(
                        EmoteV {
                            prefix: p,
                            creator: c,
                            twitch: tw,
                            theme: th,
                            minimum_sub_tier: ti,
                            image: im,
                        },
                    ),
                    _ => None,
                }
            }
        },
        _ => None,
    }
}

/// The object an emote writes back: every field in a fixed order, the
/// creator only where one is named.
pub open spec fn enc_emote_fields(e: EmoteV) -> Seq<(Seq<char>, Jv)> {
    seq![("prefix"@, Jv::Str(e.prefix))] + (match e.creator {
        Some(c) => seq![("creator"@, Jv::Str(c))],
        None => Seq::empty(),
    }) + seq![
        ("twitch"@, Jv::Bool(e.twitch)),
        ("theme"@, Jv::Num(dec_digits(e.theme as nat))),
        ("minimumSubTier"@, Jv::Num(dec_digits(e.minimum_sub_tier as nat))),
        ("image"@, Jv::Arr(image_values(e.image))),
    ]
}

pub open spec fn image_values(ims: Seq<ImageV>) -> Seq<Jv>
    decreases ims,
{
    if ims.len() == 0 {
        Seq::empty()
    } else {
        image_values(ims.drop_last()).push(Jv::Obj(enc_image_fields(ims.last())))
    }
}

} // verus!

verus! {

/// Decode an array of byte-sized numbers.
#[verifier::loop_isolation(false)]
fn decode_bytes(xs: &Vec<JsonValue>) -> (r: Result<Vec<u8>, ()>)
    ensures
        match r {
            Ok(out) => sp_bytes(view_arr(xs@)) == Some(out@),
            Err(_) => sp_bytes(view_arr(xs@)) is None,
        },
{
    let ghost va = view_arr(xs@);
    proof {
        lemma_view_arr_len(xs@);
        assert forall|j: int| 0 <= j < xs@.len() implies #[trigger] va[j] == xs@[j]@ by {
            lemma_view_arr_index(xs@, j);
        }
    }
    let mut out: Vec<u8> = Vec::new();
    let mut i: usize = 0;
    proof {
        assert(va.skip(0) =~= va);
    }
    while i < xs.len()
        invariant
            i <= xs@.len(),
            out@.len() == i,
            match sp_bytes(va.skip(i as int)) {
                None => sp_bytes(va) is None,
                Some(rest) => sp_bytes(va) == Some(out@ + rest),
            },
        decreases xs@.len() - i,
    {
        proof {
            assert(va.skip(i as int).first() == va[i as int]);
            assert(va.skip(i as int).drop_first() =~= va.skip(i + 1));
        }
        match &xs[i] {
            JsonValue::Num(t) => {
                let cs = crate::text::str_to_chars(t.as_str());
                match crate::numbers::parse_u8_digits(&cs) {
                    Some(b) => {
                        let ghost old_out = out@;
                        out.push(b);
                        proof {
                            if sp_bytes(va.skip(i + 1)) is Some {
                                let rest2 = sp_bytes(va.skip(i + 1)).unwrap();
                                assert(sp_bytes(va.skip(i as int)) == Some((seq![b] + rest2)));
                                assert(old_out + (seq![b] + rest2) =~= out@ + rest2);
                            }
                        }
                        i = i + 1;
                    },
                    None => {
                        proof {
                            assert(sp_bytes(va.skip(i as int)) is None);
                        }
                        return Err(());
                    },
                }
            },
            _ => {
                proof {
                    assert(sp_bytes(va.skip(i as int)) is None);
                }
                return Err(());
            },
        }
    }
    proof {
        assert(va.skip(xs@.len() as int) =~= Seq::<Jv>::empty());
        assert(out@ + Seq::<u8>::empty() =~= out@);
    }
    Ok(out)
}

/// Decode one image object.
#[verifier::loop_isolation(false)]
#[verifier::rlimit(100)]
pub fn decode_image(v: &JsonValue) -> (r: Result<Image, ()>)
    ensures
        match r {
            Ok(im) => sp_image(v@) == Some(im@),
            Err(_) => sp_image(v@) is None,
        },
{
    proof {
        crate::json::lemma_view_unfold(*v);
    }
    let fs = match v {
        JsonValue::Obj(fs) => fs,
        _ => {
            return Err(());
        },
    };
    let ghost vf = view_fields(fs@);
    proof {
        lemma_view_fields_len(fs@);
        assert forall|j: int| 0 <= j < fs@.len() implies #[trigger] vf[j] == (
        fs@[j].0@,
        fs@[j].1@,
        ) by {
            lemma_view_fields_index(fs@, j);
        }
    }
    let url = match crate::event::obj_find(fs, &String::from_str("url")) {
        Some(ix) => match &fs[ix].1 {
            JsonValue::Str(s) => s.clone(),
            _ => {
                return Err(());
            },
        },
        None => {
            return Err(());
        },
    };
    let name = match crate::event::obj_find(fs, &String::from_str("name")) {
        Some(ix) => match &fs[ix].1 {
            JsonValue::Str(s) => s.clone(),
            _ => {
                return Err(());
            },
        },
        None => {
            return Err(());
        },
    };
    let mime = match crate::event::obj_find(fs, &String::from_str("mime")) {
        Some(ix) => match &fs[ix].1 {
            JsonValue::Str(s) => s.clone(),
            _ => {
                return Err(());
            },
        },
        None => {
            return Err(());
        },
    };
    let height = match crate::event::obj_find(fs, &String::from_str("height")) {
        Some(ix) => match &fs[ix].1 {
            JsonValue::Num(t) => {
                let cs = crate::text::str_to_chars(t.as_str());
                match crate::numbers::parse_u16_digits(&cs) {
                    Some(n) => n,
                    None => {
                        return Err(());
                    },
                }
            },
            _ => {
                return Err(());
            },
        },
        None => {
            return Err(());
        },
    };
    let width = match crate::event::obj_find(fs, &String::from_str("width")) {
        Some(ix) => match &fs[ix].1 {
            JsonValue::Num(t) => {
                let cs = crate::text::str_to_chars(t.as_str());
                match crate::numbers::parse_u16_digits(&cs) {
                    Some(n) => n,
                    None => {
                        return Err(());
                    },
                }
            },
            _ => {
                return Err(());
            },
        },
        None => {
            return Err(());
        },
    };
    let bytes = match crate::event::obj_find(fs, &String::from_str("bytes")) {
        None => None,
        Some(bx) => match &fs[bx].1 {
            JsonValue::Null => None,
            JsonValue::Arr(xs) => match decode_bytes(xs) {
                Ok(bs) => Some(bs),
                Err(_) => {
                    return Err(());
                },
            },
            _ => {
                return Err(());
            },
        },
    };
    Ok(Image { url, name, mime, height, width, bytes })
}

} // verus!

verus! {

/// Decode an array of image objects.
#[verifier::loop_isolation(false)]
pub fn decode_images(xs: &Vec<JsonValue>) -> (r: Result<Vec<Image>, ()>)
    ensures
        match r {
            Ok(out) => sp_images(view_arr(xs@)) == Some(view_images(out@)),
            Err(_) => sp_images(view_arr(xs@)) is None,
        },
{
    let ghost va = view_arr(xs@);
    proof {
        lemma_view_arr_len(xs@);
        assert forall|j: int| 0 <= j < xs@.len() implies #[trigger] va[j] == xs@[j]@ by {
            lemma_view_arr_index(xs@, j);
        }
    }
    let mut out: Vec<Image> = Vec::new();
    let mut i: usize = 0;
    proof {
        assert(va.skip(0) =~= va);
        assert(view_images(out@) =~= Seq::<ImageV>::empty());
    }
    while i < xs.len()
        invariant
            i <= xs@.len(),
            out@.len() == i,
            view_images(out@).len() == i,
            match sp_images(va.skip(i as int)) {
                None => sp_images(va) is None,
                Some(rest) => sp_images(va) == Some(view_images(out@) + rest),
            },
        decreases xs@.len() - i,
    {
        proof {
            assert(va.skip(i as int).first() == va[i as int]);
            assert(va.skip(i as int).drop_first() =~= va.skip(i + 1));
        }
        match decode_image(&xs[i]) {
            Ok(im) => {
                let ghost old_out = out@;
                let ghost imv = im@;
                out.push(im);
                proof {
                    lemma_view_images_len(out@);
                    assert(out@.drop_last() =~= old_out);
                    assert(view_images(out@) == view_images(old_out).push(imv));
                    if sp_images(va.skip(i + 1)) is Some {
                        let rest2 = sp_images(va.skip(i + 1)).unwrap();
                        assert(sp_images(va.skip(i as int)) == Some((seq![imv] + rest2)));
                        assert(view_images(old_out) + (seq![imv] + rest2) =~= view_images(out@)
                            + rest2);
                    }
                }
                i = i + 1;
            },
            Err(_) => {
                proof {
                    assert(sp_images(va.skip(i as int)) is None);
                }
                return Err(());
            },
        }
    }
    proof {
        assert(va.skip(xs@.len() as int) =~= Seq::<Jv>::empty());
        assert(view_images(out@) + Seq::<ImageV>::empty() =~= view_images(out@));
    }
    Ok(out)
}

pub proof fn lemma_view_images_len(xs: Seq<Image>)
    ensures
        view_images(xs).len() == xs.len(),
    decreases xs,
{
    if xs.len() > 0 {
        lemma_view_images_len(xs.drop_last());
        assert(view_images(xs) == view_images(xs.drop_last()).push(xs.last()@));
    }
}

pub proof fn lemma_view_images_index(xs: Seq<Image>, i: int)
    requires
        0 <= i < xs.len(),
    ensures
        view_images(xs).len() == xs.len(),
        view_images(xs)[i] == xs[i]@,
    decreases xs,
{
    lemma_view_images_len(xs);
    lemma_view_images_len(xs.drop_last());
    assert(view_images(xs) == view_images(xs.drop_last()).push(xs.last()@));
    if i < xs.len() - 1 {
        lemma_view_images_index(xs.drop_last(), i);
        assert(xs.drop_last()[i] == xs[i]);
    } else {
        assert(xs[i] == xs.last());
    }
}

/// Decode one emote record.
#[verifier::loop_isolation(false)]
#[verifier::rlimit(100)]
pub fn decode_emote(v: &JsonValue) -> (r: Result<Emote, ()>)
    ensures
        match r {
            Ok(e) => sp_emote(v@) == Some(e@),
            Err(_) => sp_emote(v@) is None,
        },
{
    proof {
        crate::json::lemma_view_unfold(*v);
    }
    let fs = match v {
        JsonValue::Obj(fs) => fs,
        _ => {
            return Err(());
        },
    };
    let ghost vf = view_fields(fs@);
    proof {
        lemma_view_fields_len(fs@);
        assert forall|j: int| 0 <= j < fs@.len() implies #[trigger] vf[j] == (
        fs@[j].0@,
        fs@[j].1@,
        ) by {
            lemma_view_fields_index(fs@, j);
        }
    }
    let prefix = match crate::event::obj_find(fs, &String::from_str("prefix")) {
        Some(ix) => match &fs[ix].1 {
            JsonValue::Str(s) => s.clone(),
            _ => {
                return Err(());
            },
        },
        None => {
            return Err(());
        },
    };
    let creator = match crate::event::obj_find(fs, &String::from_str("creator")) {
        None => None,
        Some(cx) => match &fs[cx].1 {
            JsonValue::Null => None,
            JsonValue::Str(s) => Some(s.clone()),
            _ => {
                return Err(());
            },
        },
    };
    let twitch = match crate::event::obj_find(fs, &String::from_str("twitch")) {
        Some(tx) => match &fs[tx].1 {
            JsonValue::Bool(b) => *b,
            _ => {
                return Err(());
            },
        },
        None => {
            return Err(());
        },
    };
    let theme = match crate::event::obj_find(fs, &String::from_str("theme")) {
        Some(tx) => match &fs[tx].1 {
            JsonValue::Num(t) => {
                let cs = crate::text::str_to_chars(t.as_str());
                match crate::numbers::parse_u8_digits(&cs) {
                    Some(n) => n,
                    None => {
                        return Err(());
                    },
                }
            },
            _ => {
                return Err(());
            },
        },
        None => {
            return Err(());
        },
    };
    let minimum_sub_tier = match crate::event::obj_find(fs, &String::from_str("minimumSubTier")) {
        Some(tx) => match &fs[tx].1 {
            JsonValue::Num(t) => {
                let cs = crate::text::str_to_chars(t.as_str());
                match crate::numbers::parse_u8_digits(&cs) {
                    Some(n) => n,
                    None => {
                        return Err(());
                    },
                }
            },
            _ => {
                return Err(());
            },
        },
        None => {
            return Err(());
        },
    };
    let image = match crate::event::obj_find(fs, &String::from_str("image")) {
        Some(ix) => match &fs[ix].1 {
            JsonValue::Arr(xs) => match decode_images(xs) {
                Ok(ims) => ims,
                Err(_) => {
                    return Err(());
                },
            },
            _ => {
                return Err(());
            },
        },
        None => {
            return Err(());
        },
    };
    Ok(Emote { prefix, creator, twitch, theme, minimum_sub_tier, image })
}

/// Write one image back as its object.
pub fn encode_image(im: &Image) -> (v: JsonValue)
    ensures
        v@ == Jv::Obj(enc_image_fields(im@)),
{
    let mut fields: Vec<(String, JsonValue)> = Vec::new();
    proof {
        assert(view_fields(fields@) =~= Seq::<(Seq<char>, Jv)>::empty());
    }
    let u = JsonValue::Str(im.url.clone());
    proof {
        crate::json::lemma_view_unfold(u);
    }
    let ghost s0 = fields@;
    fields.push((String::from_str("url"), u));
    proof {
        assert(fields@.drop_last() =~= s0);
        assert(view_fields(fields@) == view_fields(s0).push(("url"@, Jv::Str(im.url@))));
    }
    let n = JsonValue::Str(im.name.clone());
    proof {
        crate::json::lemma_view_unfold(n);
    }
    let ghost s1 = fields@;
    fields.push((String::from_str("name"), n));
    proof {
        assert(fields@.drop_last() =~= s1);
        assert(view_fields(fields@) == view_fields(s1).push(("name"@, Jv::Str(im.name@))));
    }
    let m = JsonValue::Str(im.mime.clone());
    proof {
        crate::json::lemma_view_unfold(m);
    }
    let ghost s2 = fields@;
    fields.push((String::from_str("mime"), m));
    proof {
        assert(fields@.drop_last() =~= s2);
        assert(view_fields(fields@) == view_fields(s2).push(("mime"@, Jv::Str(im.mime@))));
    }
    let h = JsonValue::Num(crate::numbers::u64_to_text(im.height as u64));
    proof {
        crate::json::lemma_view_unfold(h);
    }
    let ghost s3 = fields@;
    fields.push((String::from_str("height"), h));
    proof {
        assert(fields@.drop_last() =~= s3);
        assert(view_fields(fields@) == view_fields(s3).push(
            ("height"@, Jv::Num(dec_digits(im.height as nat))),
        ));
    }
    let w = JsonValue::Num(crate::numbers::u64_to_text(im.width as u64));
    proof {
        crate::json::lemma_view_unfold(w);
    }
    let ghost s4 = fields@;
    fields.push((String::from_str("width"), w));
    proof {
        assert(fields@.drop_last() =~= s4);
        assert(view_fields(fields@) == view_fields(s4).push(
            ("width"@, Jv::Num(dec_digits(im.width as nat))),
        ));
    }
    match &im.bytes {
        Some(bs) => {
            let mut nums: Vec<JsonValue> = Vec::new();
            let mut i: usize = 0;
            proof {
                assert(view_arr(nums@) =~= byte_values(bs@.take(0)));
                assert(bs@.take(0) =~= Seq::<u8>::empty());
            }
            while i < bs.len()
                invariant
                    i <= bs@.len(),
                    view_arr(nums@) == byte_values(bs@.take(i as int)),
                decreases bs@.len() - i,
            {
                let b = JsonValue::Num(crate::numbers::u64_to_text(bs[i] as u64));
                proof {
                    crate::json::lemma_view_unfold(b);
                }
                let ghost old_nums = nums@;
                nums.push(b);
                proof {
                    assert(nums@.drop_last() =~= old_nums);
                    assert(view_arr(nums@) == view_arr(old_nums).push(
                        Jv::Num(dec_digits(bs@[i as int] as nat)),
                    ));
                    assert(bs@.take(i + 1).drop_last() =~= bs@.take(i as int));
                    assert(bs@.take(i + 1).last() == bs@[i as int]);
                    assert(byte_values(bs@.take(i + 1)) == byte_values(bs@.take(i as int)).push(
                        Jv::Num(dec_digits(bs@[i as int] as nat)),
                    ));
                }
                i = i + 1;
            }
            proof {
                assert(bs@.take(bs@.len() as int) =~= bs@);
            }
            let bv = JsonValue::Arr(nums);
            proof {
                crate::json::lemma_view_unfold(bv);
            }
            let ghost s5 = fields@;
            fields.push((String::from_str("bytes"), bv));
            proof {
                assert(fields@.drop_last() =~= s5);
                assert(view_fields(fields@) == view_fields(s5).push(
                    ("bytes"@, Jv::Arr(byte_values(bs@))),
                ));
            }
        },
        None => {},
    }
    let v = JsonValue::Obj(fields);
    proof {
        crate::json::lemma_view_unfold(v);
        assert(view_fields(v->Obj_0@) =~= enc_image_fields(im@));
    }
    v
}

/// Write one emote back as its object.
pub fn encode_emote(e: &Emote) -> (v: JsonValue)
    ensures
        v@ == Jv::Obj(enc_emote_fields(e@)),
{
    let mut fields: Vec<(String, JsonValue)> = Vec::new();
    proof {
        assert(view_fields(fields@) =~= Seq::<(Seq<char>, Jv)>::empty());
    }
    let p = JsonValue::Str(e.prefix.clone());
    proof {
        crate::json::lemma_view_unfold(p);
    }
    let ghost s0 = fields@;
    fields.push((String::from_str("prefix"), p));
    proof {
        assert(fields@.drop_last() =~= s0);
        assert(view_fields(fields@) == view_fields(s0).push(("prefix"@, Jv::Str(e.prefix@))));
    }
    match &e.creator {
        Some(c) => {
            let cv = JsonValue::Str(c.clone());
            proof {
                crate::json::lemma_view_unfold(cv);
            }
            let ghost s1 = fields@;
            fields.push((String::from_str("creator"), cv));
            proof {
                assert(fields@.drop_last() =~= s1);
                assert(view_fields(fields@) == view_fields(s1).push(("creator"@, Jv::Str(c@))));
            }
        },
        None => {},
    }
    let tv = JsonValue::Bool(e.twitch);
    proof {
        crate::json::lemma_view_unfold(tv);
    }
    let ghost s2 = fields@;
    fields.push((String::from_str("twitch"), tv));
    proof {
        assert(fields@.drop_last() =~= s2);
        assert(view_fields(fields@) == view_fields(s2).push(("twitch"@, Jv::Bool(e.twitch))));
    }
    let th = JsonValue::Num(crate::numbers::u64_to_text(e.theme as u64));
    proof {
        crate::json::lemma_view_unfold(th);
    }
    let ghost s3 = fields@;
    fields.push((String::from_str("theme"), th));
    proof {
        assert(fields@.drop_last() =~= s3);
        assert(view_fields(fields@) == view_fields(s3).push(
            ("theme"@, Jv::Num(dec_digits(e.theme as nat))),
        ));
    }
    let ti = JsonValue::Num(crate::numbers::u64_to_text(e.minimum_sub_tier as u64));
    proof {
        crate::json::lemma_view_unfold(ti);
    }
    let ghost s4 = fields@;
    fields.push((String::from_str("minimumSubTier"), ti));
    proof {
        assert(fields@.drop_last() =~= s4);
        assert(view_fields(fields@) == view_fields(s4).push(
            ("minimumSubTier"@, Jv::Num(dec_digits(e.minimum_sub_tier as nat))),
        ));
    }
    let mut ims: Vec<JsonValue> = Vec::new();
    let mut i: usize = 0;
    proof {
        crate::emote::lemma_view_images_len(e.image@);
        assert forall|j: int| 0 <= j < e.image@.len() implies #[trigger] view_images(e.image@)[j]
            == e.image@[j]@ by {
            lemma_view_images_index(e.image@, j);
        }
        assert(view_arr(ims@) =~= image_values(view_images(e.image@).take(0)));
        assert(view_images(e.image@).take(0) =~= Seq::<ImageV>::empty());
    }
    while i < e.image.len()
        invariant
            i <= e.image@.len(),
            view_images(e.image@).len() == e.image@.len(),
            forall|j: int|
                0 <= j < e.image@.len() ==> #[trigger] view_images(e.image@)[j] == e.image@[j]@,
            view_arr(ims@) == image_values(view_images(e.image@).take(i as int)),
        decreases e.image@.len() - i,
    {
        let iv = encode_image(&e.image[i]);
        let ghost old_ims = ims@;
        ims.push(iv);
        proof {
            let ghost imgs = view_images(e.image@);
            assert(ims@.drop_last() =~= old_ims);
            assert(view_arr(ims@) == view_arr(old_ims).push(Jv::Obj(enc_image_fields(
                e.image@[i as int]@,
            ))));
            assert(imgs.take(i + 1).drop_last() =~= imgs.take(i as int));
            assert(imgs.take(i + 1).last() == imgs[i as int]);
            assert(image_values(imgs.take(i + 1)) == image_values(imgs.take(i as int)).push(
                Jv::Obj(enc_image_fields(imgs[i as int])),
            ));
        }
        i = i + 1;
    }
    proof {
        assert(view_images(e.image@).take(e.image@.len() as int) =~= view_images(e.image@));
    }
    let imv = JsonValue::Arr(ims);
    proof {
        crate::json::lemma_view_unfold(imv);
    }
    let ghost s5 = fields@;
    fields.push((String::from_str("image"), imv));
    proof {
        assert(fields@.drop_last() =~= s5);
        assert(view_fields(fields@) == view_fields(s5).push(
            ("image"@, Jv::Arr(image_values(view_images(e.image@)))),
        ));
    }
    let v = JsonValue::Obj(fields);
    proof {
        crate::json::lemma_view_unfold(v);
        assert(view_fields(v->Obj_0@) =~= enc_emote_fields(e@));
    }
    v
}

} // verus!

verus! {

proof fn lemma_eget1(x0: (Seq<char>, Jv), k: Seq<char>)
    ensures
        obj_get(seq![x0], k) == (if x0.0 == k {
            Some(x0.1)
        } else {
            None
        }),
{
    let s = seq![x0];
    assert(s.first() == x0);
    assert(s.drop_first() =~= Seq::<(Seq<char>, Jv)>::empty());
    assert(obj_get(Seq::<(Seq<char>, Jv)>::empty(), k) is None);
}

proof fn lemma_eget_cons(x0: (Seq<char>, Jv), rest: Seq<(Seq<char>, Jv)>, k: Seq<char>)
    ensures
        obj_get(seq![x0] + rest, k) == (if x0.0 == k {
            Some(x0.1)
        } else {
            obj_get(rest, k)
        }),
{
    let s = seq![x0] + rest;
    assert(s.first() == x0);
    assert(s.drop_first() =~= rest);
    assert(obj_get(s.drop_first(), k) == obj_get(rest, k));
}

/// Bytes written as numbers, read back, are the same bytes.
proof fn lemma_bytes_inverse(bs: Seq<u8>)
    ensures
        sp_bytes(byte_values(bs)) == Some(bs),
    decreases bs.len(),
{
    if bs.len() == 0 {
        assert(byte_values(bs).len() == 0);
        assert(sp_bytes(byte_values(bs)) == Some(Seq::<u8>::empty()));
        assert(bs =~= Seq::<u8>::empty());
    } else {
        lemma_byte_values_head(bs);
        let vs = byte_values(bs);
        assert(vs == seq![Jv::Num(crate::numbers::dec_digits(bs.first() as nat))] + byte_values(
            bs.drop_first(),
        ));
        assert(vs.first() == Jv::Num(crate::numbers::dec_digits(bs.first() as nat)));
        assert(vs.drop_first() =~= byte_values(bs.drop_first()));
        lemma_bytes_inverse(bs.drop_first());
        crate::numbers::lemma_canon_u8_some(
            crate::numbers::dec_digits(bs.first() as nat),
            bs.first(),
        );
        assert(sp_bytes(vs.drop_first()) == sp_bytes(byte_values(bs.drop_first())));
        assert(sp_bytes(vs) == Some(seq![bs.first()] + bs.drop_first()));
        assert(seq![bs.first()] + bs.drop_first() =~= bs);
    }
}

/// The written bytes, head first.
proof fn lemma_byte_values_head(bs: Seq<u8>)
    requires
        bs.len() > 0,
    ensures
        byte_values(bs) == seq![Jv::Num(crate::numbers::dec_digits(bs.first() as nat))]
            + byte_values(bs.drop_first()),
    decreases bs.len(),
{
    if bs.len() == 1 {
        assert(bs.drop_last() =~= Seq::<u8>::empty());
        assert(byte_values(bs) == byte_values(bs.drop_last()).push(
            Jv::Num(crate::numbers::dec_digits(bs.last() as nat)),
        ));
        assert(bs.first() == bs.last());
        assert(bs.drop_first() =~= Seq::<u8>::empty());
        assert(byte_values(bs) =~= seq![Jv::Num(crate::numbers::dec_digits(bs.first() as nat))]
            + byte_values(bs.drop_first()));
    } else {
        lemma_byte_values_head(bs.drop_last());
        assert(bs.drop_last().first() == bs.first());
        assert(bs.drop_last().drop_first() =~= bs.drop_first().drop_last());
        assert(bs.drop_first().last() == bs.last());
        assert(byte_values(bs) == byte_values(bs.drop_last()).push(
            Jv::Num(crate::numbers::dec_digits(bs.last() as nat)),
        ));
        assert(byte_values(bs.drop_first()) == byte_values(bs.drop_first().drop_last()).push(
            Jv::Num(crate::numbers::dec_digits(bs.last() as nat)),
        ));
        assert(byte_values(bs) =~= seq![Jv::Num(crate::numbers::dec_digits(bs.first() as nat))]
            + byte_values(bs.drop_first()));
    }
}

/// An image written back reads as itself.
#[verifier::rlimit(100)]
#[verifier::spinoff_prover]
pub proof fn lemma_image_inverse(im: ImageV)
    ensures
        sp_image(Jv::Obj(enc_image_fields(im))) == Some(im),
{
    reveal_strlit("url");
    reveal_strlit("name");
    reveal_strlit("mime");
    reveal_strlit("height");
    reveal_strlit("width");
    reveal_strlit("bytes");
    assert("url"@.len() == 3 && "name"@.len() == 4 && "mime"@.len() == 4 && "height"@.len() == 6
        && "width"@.len() == 5 && "bytes"@.len() == 5);
    assert("name"@[0] == 'n' && "mime"@[0] == 'm' && "width"@[0] == 'w' && "bytes"@[0] == 'b');
    let fs = enc_image_fields(im);
    let hv = Jv::Num(crate::numbers::dec_digits(im.height as nat));
    let wv = Jv::Num(crate::numbers::dec_digits(im.width as nat));
    crate::numbers::lemma_canon_u16_some(crate::numbers::dec_digits(im.height as nat), im.height);
    crate::numbers::lemma_canon_u16_some(crate::numbers::dec_digits(im.width as nat), im.width);
    let base: Seq<(Seq<char>, Jv)> = seq![
        ("url"@, Jv::Str(im.url)),
        ("name"@, Jv::Str(im.name)),
        ("mime"@, Jv::Str(im.mime)),
        ("height"@, hv),
        ("width"@, wv),
    ];
    match im.bytes {
        Some(bs) => {
            lemma_bytes_inverse(bs);
            assert(fs =~= base + seq![("bytes"@, Jv::Arr(byte_values(bs)))]);
            assert forall|k: Seq<char>| true implies #[trigger] obj_get(fs, k) == (if k == "url"@ {
                Some(Jv::Str(im.url))
            } else if k == "name"@ {
                Some(Jv::Str(im.name))
            } else if k == "mime"@ {
                Some(Jv::Str(im.mime))
            } else if k == "height"@ {
                Some(hv)
            } else if k == "width"@ {
                Some(wv)
            } else if k == "bytes"@ {
                Some(Jv::Arr(byte_values(bs)))
            } else {
                None
            }) by {
                lemma_obj_get_enum6(fs, base, ("bytes"@, Jv::Arr(byte_values(bs))), k);
            }
        },
        None => {
            assert(fs =~= base);
            assert forall|k: Seq<char>| true implies #[trigger] obj_get(fs, k) == (if k == "url"@ {
                Some(Jv::Str(im.url))
            } else if k == "name"@ {
                Some(Jv::Str(im.name))
            } else if k == "mime"@ {
                Some(Jv::Str(im.mime))
            } else if k == "height"@ {
                Some(hv)
            } else if k == "width"@ {
                Some(wv)
            } else {
                None
            }) by {
                lemma_obj_get_enum5(fs, k);
            }
        },
    }
}

proof fn lemma_obj_get_enum5(fs: Seq<(Seq<char>, Jv)>, k: Seq<char>)
    requires
        fs.len() == 5,
    ensures
        obj_get(fs, k) == (if fs[0].0 == k {
            Some(fs[0].1)
        } else if fs[1].0 == k {
            Some(fs[1].1)
        } else if fs[2].0 == k {
            Some(fs[2].1)
        } else if fs[3].0 == k {
            Some(fs[3].1)
        } else if fs[4].0 == k {
            Some(fs[4].1)
        } else {
            None
        }),
{
    let r1 = seq![fs[1], fs[2], fs[3], fs[4]];
    let r2 = seq![fs[2], fs[3], fs[4]];
    let r3 = seq![fs[3], fs[4]];
    let r4 = seq![fs[4]];
    assert(fs =~= seq![fs[0]] + r1);
    lemma_eget_cons(fs[0], r1, k);
    assert(r1 =~= seq![fs[1]] + r2);
    lemma_eget_cons(fs[1], r2, k);
    assert(r2 =~= seq![fs[2]] + r3);
    lemma_eget_cons(fs[2], r3, k);
    assert(r3 =~= seq![fs[3]] + r4);
    lemma_eget_cons(fs[3], r4, k);
    lemma_eget1(fs[4], k);
}

proof fn lemma_obj_get_enum6(
    fs: Seq<(Seq<char>, Jv)>,
    base: Seq<(Seq<char>, Jv)>,
    last: (Seq<char>, Jv),
    k: Seq<char>,
)
    requires
        base.len() == 5,
        fs == base + seq![last],
    ensures
        obj_get(fs, k) == (if base[0].0 == k {
            Some(base[0].1)
        } else if base[1].0 == k {
            Some(base[1].1)
        } else if base[2].0 == k {
            Some(base[2].1)
        } else if base[3].0 == k {
            Some(base[3].1)
        } else if base[4].0 == k {
            Some(base[4].1)
        } else if last.0 == k {
            Some(last.1)
        } else {
            None
        }),
{
    let rest = seq![base[1], base[2], base[3], base[4], last];
    assert(fs =~= seq![base[0]] + rest);
    lemma_eget_cons(base[0], rest, k);
    lemma_obj_get_enum5(rest, k);
}

} // verus!

verus! {

proof fn lemma_obj_get_enum6_flat(fs: Seq<(Seq<char>, Jv)>, k: Seq<char>)
    requires
        fs.len() == 6,
    ensures
        obj_get(fs, k) == (if fs[0].0 == k {
            Some(fs[0].1)
        } else if fs[1].0 == k {
            Some(fs[1].1)
        } else if fs[2].0 == k {
            Some(fs[2].1)
        } else if fs[3].0 == k {
            Some(fs[3].1)
        } else if fs[4].0 == k {
            Some(fs[4].1)
        } else if fs[5].0 == k {
            Some(fs[5].1)
        } else {
            None
        }),
{
    let rest = seq![fs[1], fs[2], fs[3], fs[4], fs[5]];
    assert(fs =~= seq![fs[0]] + rest);
    lemma_eget_cons(fs[0], rest, k);
    lemma_obj_get_enum5(rest, k);
}

/// The written images, head first.
proof fn lemma_image_values_head(ims: Seq<ImageV>)
    requires
        ims.len() > 0,
    ensures
        image_values(ims) == seq![Jv::Obj(enc_image_fields(ims.first()))] + image_values(
            ims.drop_first(),
        ),
    decreases ims.len(),
{
    if ims.len() == 1 {
        assert(ims.drop_last() =~= Seq::<ImageV>::empty());
        assert(ims.first() == ims.last());
        assert(ims.drop_first() =~= Seq::<ImageV>::empty());
        assert(image_values(ims) == image_values(ims.drop_last()).push(
            Jv::Obj(enc_image_fields(ims.last())),
        ));
        assert(image_values(ims) =~= seq![Jv::Obj(enc_image_fields(ims.first()))] + image_values(
            ims.drop_first(),
        ));
    } else {
        lemma_image_values_head(ims.drop_last());
        assert(ims.drop_last().first() == ims.first());
        assert(ims.drop_last().drop_first() =~= ims.drop_first().drop_last());
        assert(ims.drop_first().last() == ims.last());
        assert(image_values(ims) == image_values(ims.drop_last()).push(
            Jv::Obj(enc_image_fields(ims.last())),
        ));
        assert(image_values(ims.drop_first()) == image_values(ims.drop_first().drop_last()).push(
            Jv::Obj(enc_image_fields(ims.last())),
        ));
        assert(image_values(ims) =~= seq![Jv::Obj(enc_image_fields(ims.first()))] + image_values(
            ims.drop_first(),
        ));
    }
}

/// Images written back read as themselves.
proof fn lemma_images_inverse(ims: Seq<ImageV>)
    ensures
        sp_images(image_values(ims)) == Some(ims),
    decreases ims.len(),
{
    if ims.len() == 0 {
        assert(image_values(ims).len() == 0);
        assert(ims =~= Seq::<ImageV>::empty());
    } else {
        lemma_image_values_head(ims);
        let vs = image_values(ims);
        assert(vs.first() == Jv::Obj(enc_image_fields(ims.first())));
        assert(vs.drop_first() =~= image_values(ims.drop_first()));
        lemma_image_inverse(ims.first());
        lemma_images_inverse(ims.drop_first());
        assert(sp_images(vs.drop_first()) == sp_images(image_values(ims.drop_first())));
        assert(sp_images(vs) == Some(seq![ims.first()] + ims.drop_first()));
        assert(seq![ims.first()] + ims.drop_first() =~= ims);
    }
}

/// An emote record written back reads as itself: what the memoized copy
/// serves is what was stored.
#[verifier::rlimit(100)]
#[verifier::spinoff_prover]
pub proof fn lemma_emote_inverse(e: EmoteV)
    ensures
        sp_emote(Jv::Obj(enc_emote_fields(e))) == Some(e),
{
    reveal_strlit("prefix");
    reveal_strlit("creator");
    reveal_strlit("twitch");
    reveal_strlit("theme");
    reveal_strlit("minimumSubTier");
    reveal_strlit("image");
    assert("prefix"@.len() == 6 && "creator"@.len() == 7 && "twitch"@.len() == 6 && "theme"@.len()
        == 5 && "minimumSubTier"@.len() == 14 && "image"@.len() == 5);
    assert("prefix"@[0] == 'p' && "twitch"@[0] == 't' && "theme"@[0] == 't' && "image"@[0] == 'i');
    assert("theme"@[1] == 'h' && "image"@[1] == 'm');
    let fs = enc_emote_fields(e);
    let thv = Jv::Num(crate::numbers::dec_digits(e.theme as nat));
    let tiv = Jv::Num(crate::numbers::dec_digits(e.minimum_sub_tier as nat));
    crate::numbers::lemma_canon_u8_some(crate::numbers::dec_digits(e.theme as nat), e.theme);
    crate::numbers::lemma_canon_u8_some(
        crate::numbers::dec_digits(e.minimum_sub_tier as nat),
        e.minimum_sub_tier,
    );
    lemma_images_inverse(e.image);
    match e.creator {
        Some(c) => {
            assert(fs =~= seq![
                ("prefix"@, Jv::Str(e.prefix)),
                ("creator"@, Jv::Str(c)),
                ("twitch"@, Jv::Bool(e.twitch)),
                ("theme"@, thv),
                ("minimumSubTier"@, tiv),
                ("image"@, Jv::Arr(image_values(e.image))),
            ]);
            assert forall|k: Seq<char>| true implies #[trigger] obj_get(fs, k) == (if k
                == "prefix"@ {
                Some(Jv::Str(e.prefix))
            } else if k == "creator"@ {
                Some(Jv::Str(c))
            } else if k == "twitch"@ {
                Some(Jv::Bool(e.twitch))
            } else if k == "theme"@ {
                Some(thv)
            } else if k == "minimumSubTier"@ {
                Some(tiv)
            } else if k == "image"@ {
                Some(Jv::Arr(image_values(e.image)))
            } else {
                None
            }) by {
                lemma_obj_get_enum6_flat(fs, k);
            }
        },
        None => {
            assert(fs =~= seq![
                ("prefix"@, Jv::Str(e.prefix)),
                ("twitch"@, Jv::Bool(e.twitch)),
                ("theme"@, thv),
                ("minimumSubTier"@, tiv),
                ("image"@, Jv::Arr(image_values(e.image))),
            ]);
            assert forall|k: Seq<char>| true implies #[trigger] obj_get(fs, k) == (if k
                == "prefix"@ {
                Some(Jv::Str(e.prefix))
            } else if k == "twitch"@ {
                Some(Jv::Bool(e.twitch))
            } else if k == "theme"@ {
                Some(thv)
            } else if k == "minimumSubTier"@ {
                Some(tiv)
            } else if k == "image"@ {
                Some(Jv::Arr(image_values(e.image)))
            } else {
                None
            }) by {
                lemma_obj_get_enum5(fs, k);
            }
        },
    }
}

} // verus!

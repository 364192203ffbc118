//! Flairs: the badge records the CDN serves, and the named roles their wire
//! tokens stand for.

use crate::color::{Rgb8, color_of, color_text, is_color_text};
use crate::json::{Jv, JsonValue, lemma_view_arr_index, lemma_view_arr_len, lemma_view_fields_index,
    lemma_view_fields_len, obj_get, view_arr, view_fields};
use crate::numbers::{canon_u8, canon_u64, dec_digits};
use vstd::prelude::*;
use vstd::string::StrSliceExecFns;

verus! {

/// The named roles a flair token can stand for.
#[derive(Debug, Clone, PartialEq)]
pub enum FlairKind {
    Moderator,
    Protected,
    Subscriber,
    TwitchSubscriber,
    Admin,
    Broadcaster,
    Vip,
    Bot,
    CommunityBot,
    SubscriberTier1,
    SubscriberTier2,
    SubscriberTier3,
    SubscriberTier4,
    SubscriberTier5,
    Micro,
    NflAndy,
    Verified,
    NewUser,
    LeagueMaster,
    Gym,
    Lawyer,
    TikTokEditor,
    YouTubeContributor,
    YouTubeEditor,
    DndKnightTierParty,
    DndKnightTierScoria,
    DndBaronTierGold,
    EmoteMaster,
    EmoteContributor,
    ShirtDesigner,
    Birthday,
    MinecraftVip,
    StarCraft2,
    CompositionWinner,
    Contributor,
    Trusted,
    Notable,
    Other(String),
}

/// Whether a flair token names this role: each named role has exactly one
/// token; everything else keeps its token in `Other`.
pub open spec fn kind_matches(k: FlairKind, s: Seq<char>) -> bool {
    match k {
        FlairKind::Moderator => s == "moderator"@,
        FlairKind::Protected => s == "protected"@,
        FlairKind::Subscriber => s == "subscriber"@,
        FlairKind::Admin => s == "admin"@,
        FlairKind::Vip => s == "vip"@,
        FlairKind::Bot => s == "bot"@,
        FlairKind::SubscriberTier2 => s == "flair1"@,
        FlairKind::Notable => s == "flair2"@,
        FlairKind::SubscriberTier3 => s == "flair3"@,
        FlairKind::Trusted => s == "flair4"@,
        FlairKind::Contributor => s == "flair5"@,
        FlairKind::CompositionWinner => s == "flair6"@,
        FlairKind::NflAndy => s == "flair7"@,
        FlairKind::SubscriberTier4 => s == "flair8"@,
        FlairKind::TwitchSubscriber => s == "flair9"@,
        FlairKind::StarCraft2 => s == "flair10"@,
        FlairKind::CommunityBot => s == "flair11"@,
        FlairKind::Broadcaster => s == "flair12"@,
        FlairKind::SubscriberTier1 => s == "flair13"@,
        FlairKind::MinecraftVip => s == "flair14"@,
        FlairKind::Birthday => s == "flair15"@,
        FlairKind::EmoteContributor => s == "flair16"@,
        FlairKind::Micro => s == "flair17"@,
        FlairKind::EmoteMaster => s == "flair18"@,
        FlairKind::ShirtDesigner => s == "flair19"@,
        FlairKind::Verified => s == "flair20"@,
        FlairKind::YouTubeEditor => s == "flair21"@,
        FlairKind::DndBaronTierGold => s == "flair22"@,
        FlairKind::DndKnightTierScoria => s == "flair24"@,
        FlairKind::YouTubeContributor => s == "flair25"@,
        FlairKind::DndKnightTierParty => s == "flair26"@,
        FlairKind::TikTokEditor => s == "flair27"@,
        FlairKind::Lawyer => s == "flair28"@,
        FlairKind::Gym => s == "flair29"@,
        FlairKind::LeagueMaster => s == "flair30"@,
        FlairKind::SubscriberTier5 => s == "flair42"@,
        FlairKind::NewUser => s == "flair58"@,
        FlairKind::Other(t) => t@ == s && !known_flair_token(s),
    }
}

/// The tokens that name a role.
pub open spec fn known_flair_token(s: Seq<char>) -> bool {
    ||| s == "moderator"@
    ||| s == "protected"@
    ||| s == "subscriber"@
    ||| s == "admin"@
    ||| s == "vip"@
    ||| s == "bot"@
    ||| s == "flair1"@
    ||| s == "flair2"@
    ||| s == "flair3"@
    ||| s == "flair4"@
    ||| s == "flair5"@
    ||| s == "flair6"@
    ||| s == "flair7"@
    ||| s == "flair8"@
    ||| s == "flair9"@
    ||| s == "flair10"@
    ||| s == "flair11"@
    ||| s == "flair12"@
    ||| s == "flair13"@
    ||| s == "flair14"@
    ||| s == "flair15"@
    ||| s == "flair16"@
    ||| s == "flair17"@
    ||| s == "flair18"@
    ||| s == "flair19"@
    ||| s == "flair20"@
    ||| s == "flair21"@
    ||| s == "flair22"@
    ||| s == "flair24"@
    ||| s == "flair25"@
    ||| s == "flair26"@
    ||| s == "flair27"@
    ||| s == "flair28"@
    ||| s == "flair29"@
    ||| s == "flair30"@
    ||| s == "flair42"@
    ||| s == "flair58"@
}

impl FlairKind {
    /// The role a flair token names; an unrecognized token is kept whole.
    #[verifier::rlimit(100)]
    #[verifier::spinoff_prover]
    pub fn from_name(value: &str) -> (k: FlairKind)
        ensures
            kind_matches(k, value@),
    {
        let v = value.to_owned();
        if v == String::from_str("moderator") {
            FlairKind::Moderator
        } else if v == String::from_str("protected") {
            FlairKind::Protected
        } else if v == String::from_str("subscriber") {
            FlairKind::Subscriber
        } else if v == String::from_str("admin") {
            FlairKind::Admin
        } else if v == String::from_str("vip") {
            FlairKind::Vip
        } else if v == String::from_str("bot") {
            FlairKind::Bot
        } else if v == String::from_str("flair1") {
            FlairKind::SubscriberTier2
        } else if v == String::from_str("flair2") {
            FlairKind::Notable
        } else if v == String::from_str("flair3") {
            FlairKind::SubscriberTier3
        } else if v == String::from_str("flair4") {
            FlairKind::Trusted
        } else if v == String::from_str("flair5") {
            FlairKind::Contributor
        } else if v == String::from_str("flair6") {
            FlairKind::CompositionWinner
        } else if v == String::from_str("flair7") {
            FlairKind::NflAndy
        } else if v == String::from_str("flair8") {
            FlairKind::SubscriberTier4
        } else if v == String::from_str("flair9") {
            FlairKind::TwitchSubscriber
        } else if v == String::from_str("flair10") {
            FlairKind::StarCraft2
        } else if v == String::from_str("flair11") {
            FlairKind::CommunityBot
        } else if v == String::from_str("flair12") {
            FlairKind::Broadcaster
        } else if v == String::from_str("flair13") {
            FlairKind::SubscriberTier1
        } else if v == String::from_str("flair14") {
            FlairKind::MinecraftVip
        } else if v == String::from_str("flair15") {
            FlairKind::Birthday
        } else if v == String::from_str("flair16") {
            FlairKind::EmoteContributor
        } else if v == String::from_str("flair17") {
            FlairKind::Micro
        } else if v == String::from_str("flair18") {
            FlairKind::EmoteMaster
        } else if v == String::from_str("flair19") {
            FlairKind::ShirtDesigner
        } else if v == String::from_str("flair20") {
            FlairKind::Verified
        } else if v == String::from_str("flair21") {
            FlairKind::YouTubeEditor
        } else if v == String::from_str("flair22") {
            FlairKind::DndBaronTierGold
        } else if v == String::from_str("flair24") {
            FlairKind::DndKnightTierScoria
        } else if v == String::from_str("flair25") {
            FlairKind::YouTubeContributor
        } else if v == String::from_str("flair26") {
            FlairKind::DndKnightTierParty
        } else if v == String::from_str("flair27") {
            FlairKind::TikTokEditor
        } else if v == String::from_str("flair28") {
            FlairKind::Lawyer
        } else if v == String::from_str("flair29") {
            FlairKind::Gym
        } else if v == String::from_str("flair30") {
            FlairKind::LeagueMaster
        } else if v == String::from_str("flair42") {
            FlairKind::SubscriberTier5
        } else if v == String::from_str("flair58") {
            FlairKind::NewUser
        } else {
            FlairKind::Other(v)
        }
    }
}

/// One image of a flair record.
#[derive(Debug, Clone, PartialEq)]
pub struct FlairImage {
    pub url: String,
    pub name: String,
    pub mime: String,
    pub height: u8,
    pub width: u8,
}

/// The view of a [`FlairImage`].
pub struct FlairImageV {
    pub url: Seq<char>,
    pub name: Seq<char>,
    pub mime: Seq<char>,
    pub height: u8,
    pub width: u8,
}

impl View for FlairImage {
    type V = FlairImageV;

    open spec fn view(&self) -> FlairImageV {
        FlairImageV {
            url: self.url@,
            name: self.name@,
            mime: self.mime@,
            height: self.height,
            width: self.width,
        }
    }
}

/// One flair record: a badge with its styling.
#[derive(Debug, Clone, PartialEq)]
pub struct Flair {
    pub label: String,
    pub name: String,
    pub description: Option<String>,
    pub hidden: bool,
    pub priority: u64,
    pub color: Option<Rgb8>,
    pub rainbow_color: bool,
    pub image: Vec<FlairImage>,
}

/// The view of a [`Flair`].
pub struct FlairV {
    pub label: Seq<char>,
    pub name: Seq<char>,
    pub description: Option<Seq<char>>,
    pub hidden: bool,
    pub priority: u64,
    pub color: Option<Rgb8>,
    pub rainbow_color: bool,
    pub image: Seq<FlairImageV>,
}

pub open spec fn view_flair_images(xs: Seq<FlairImage>) -> Seq<FlairImageV>
    decreases xs,
{
    if xs.len() == 0 {
        Seq::empty()
    } else {
        view_flair_images(xs.drop_last()).push(xs.last()@)
    }
}

impl View for Flair {
    type V = FlairV;

    open spec fn view(&self) -> FlairV {
        FlairV {
            label: self.label@,
            name: self.name@,
            description: match self.description {
                Some(d) => Some(d@),
                None => None,
            },
            hidden: self.hidden,
            priority: self.priority,
            color: self.color,
            rainbow_color: self.rainbow_color,
            image: view_flair_images(self.image@),
        }
    }
}

} // verus!

verus! {

/// The flair image an object stands for. Fields it does not name are
/// ignored, so a record the server extends still reads.
pub open spec fn sp_flair_image(v: Jv) -> Option<FlairImageV> {
    match v {
        Jv::Obj(fs) => {
            {
                let url = match obj_get(fs, "url"@) {
                    Some(Jv::Str(s)) => Some(s),
                    _ => None::<Seq<char>>,
                };
                let name = match obj_get(fs, "name"@) {
                    Some(Jv::Str(s)) => Some(s),
                    _ => None::<Seq<char>>,
                };
                let mime = match obj_get(fs, "mime"@) {
                    Some(Jv::Str(s)) => Some(s),
                    _ => None::<Seq<char>>,
                };
                let height = match obj_get(fs, "height"@) {
                    Some(Jv::Num(t)) => canon_u8(t),
                    _ => None::<u8>,
                };
                let width = match obj_get(fs, "width"@) {
                    Some(Jv::Num(t)) => canon_u8(t),
                    _ => None::<u8>,
                };
                match (url, name, mime, height, width) {
                    (Some(url), Some(name), Some(mime), Some(h), Some(w)) => Some(
                        FlairImageV { url, name, mime, height: h, width: w },
                    ),
                    _ => None,
                }
            }
        },
        _ => None,
    }
}

/// The object a flair image writes back.
pub open spec fn enc_flair_image_fields(im: FlairImageV) -> Seq<(Seq<char>, Jv)> {
    seq![
        ("url"@, Jv::Str(im.url)),
        ("name"@, Jv::Str(im.name)),
        ("mime"@, Jv::Str(im.mime)),
        ("height"@, Jv::Num(dec_digits(im.height as nat))),
        ("width"@, Jv::Num(dec_digits(im.width as nat))),
    ]
}

pub open spec fn sp_flair_images(xs: Seq<Jv>) -> Option<Seq<FlairImageV>>
    decreases xs,
{
    if xs.len() == 0 {
        Some(Seq::empty())
    } else {
        match sp_flair_image(xs.first()) {
            Some(im) => match sp_flair_images(xs.drop_first()) {
                Some(rest) => Some(seq![im] + rest),
                None => None,
            },
            None => None,
        }
    }
}

/// The flair an object stands for: the exact mathematical statement of
/// `decode_flair`. A `null` or empty color text means no color; fields the
/// flair does not name are ignored, so a record the server extends still
/// reads.
pub open spec fn sp_flair(v: Jv) -> Option<FlairV> {
    match v {
        Jv::Obj(fs) => {
            {
                let label = match obj_get(fs, "label"@) {
                    Some(Jv::Str(s)) => Some(s),
                    _ => None::<Seq<char>>,
                };
                let name = match obj_get(fs, "name"@) {
                    Some(Jv::Str(s)) => Some(s),
                    _ => None::<Seq<char>>,
                };
                let description = match obj_get(fs, "description"@) {
                    None => Some(None::<Seq<char>>),
                    Some(Jv::Null) => Some(None::<Seq<char>>),
                    Some(Jv::Str(s)) => Some(Some(s)),
                    Some(_) => None,
                };
                let hidden = match obj_get(fs, "hidden"@) {
                    Some(Jv::Bool(b)) => Some(b),
                    _ => None::<bool>,
                };
                let priority = match obj_get(fs, "priority"@) {
                    Some(Jv::Num(t)) => canon_u64(t),
                    _ => None::<u64>,
                };
                let color = match obj_get(fs, "color"@) {
                    Some(Jv::Null) => Some(None::<Rgb8>),
                    Some(Jv::Str(s)) => if s.len() == 0 {
                        Some(None::<Rgb8>)
                    } else if is_color_text(s) {
                        Some(Some(color_of(s)))
                    } else {
                        None
                    },
                    _ => None,
                };
                let rainbow = match obj_get(fs, "rainbowColor"@) {
                    Some(Jv::Bool(b)) => Some(b),
                    _ => None::<bool>,
                };
                let image = match obj_get(fs, "image"@) {
                    Some(Jv::Arr(xs)) => sp_flair_images(xs),
                    _ => None::<Seq<FlairImageV>>,
                };
                match (label, name, description, hidden, priority, color, rainbow, image) {
                    (
                        Some(l),
                        Some(n),
                        Some(d),
                        Some(h),
                        Some(p),
                        Some(c),
                        Some(r),
                        Some(im),
                    ) => Some(
                        FlairV {
                            label: l,
                            name: n,
                            description: d,
                            hidden: h,
                            priority: p,
                            color: c,
                            rainbow_color: r,
                            image: im,
                        },
                    ),
                    _ => None,
                }
            }
        },
        _ => None,
    }
}

/// The object a flair writes back: a missing color is written as `null`.
pub open spec fn enc_flair_fields(f: FlairV) -> Seq<(Seq<char>, Jv)> {
    seq![("label"@, Jv::Str(f.label)), ("name"@, Jv::Str(f.name))] + (match f.description {
        Some(d) => seq![("description"@, Jv::Str(d))],
        None => Seq::empty(),
    }) + seq![
        ("hidden"@, Jv::Bool(f.hidden)),
        ("priority"@, Jv::Num(dec_digits(f.priority as nat))),
        (
            "color"@,
            match f.color {
                Some(c) => Jv::Str(color_text(c)),
                None => Jv::Null,
            },
        ),
        ("rainbowColor"@, Jv::Bool(f.rainbow_color)),
        ("image"@, Jv::Arr(flair_image_values(f.image))),
    ]
}

pub open spec fn flair_image_values(ims: Seq<FlairImageV>) -> Seq<Jv>
    decreases ims,
{
    if ims.len() == 0 {
        Seq::empty()
    } else {
        flair_image_values(ims.drop_last()).push(Jv::Obj(enc_flair_image_fields(ims.last())))
    }
}

/// Decode one flair image object.
#[verifier::loop_isolation(false)]
#[verifier::rlimit(100)]
pub fn decode_flair_image(v: &JsonValue) -> (r: Result<FlairImage, ()>)
    ensures
        match r {
            Ok(im) => sp_flair_image(v@) == Some(im@),
            Err(_) => sp_flair_image(v@) is None,
        },
{
    proof {
        crate::json::lemma_view_unfold(*v);
    }
    let fs = match v {
        JsonValue::Obj(fs) => fs,
        _ => {
            return Err(());
        },
    };
    let ghost vf = view_fields(fs@);
    proof {
        lemma_view_fields_len(fs@);
        assert forall|j: int| 0 <= j < fs@.len() implies #[trigger] vf[j] == (
        fs@[j].0@,
        fs@[j].1@,
        ) by {
            lemma_view_fields_index(fs@, j);
        }
    }
    let url = match crate::event::obj_find(fs, &String::from_str("url")) {
        Some(ix) => match &fs[ix].1 {
            JsonValue::Str(s) => s.clone(),
            _ => {
                return Err(());
            },
        },
        None => {
            return Err(());
        },
    };
    let name = match crate::event::obj_find(fs, &String::from_str("name")) {
        Some(ix) => match &fs[ix].1 {
            JsonValue::Str(s) => s.clone(),
            _ => {
                return Err(());
            },
        },
        None => {
            return Err(());
        },
    };
    let mime = match crate::event::obj_find(fs, &String::from_str("mime")) {
        Some(ix) => match &fs[ix].1 {
            JsonValue::Str(s) => s.clone(),
            _ => {
                return Err(());
            },
        },
        None => {
            return Err(());
        },
    };
    let height = match crate::event::obj_find(fs, &String::from_str("height")) {
        Some(ix) => match &fs[ix].1 {
            JsonValue::Num(t) => {
                let cs = crate::text::str_to_chars(t.as_str());
                match crate::numbers::parse_u8_digits(&cs) {
                    Some(n) => n,
                    None => {
                        return Err(());
                    },
                }
            },
            _ => {
                return Err(());
            },
        },
        None => {
            return Err(());
        },
    };
    let width = match crate::event::obj_find(fs, &String::from_str("width")) {
        Some(ix) => match &fs[ix].1 {
            JsonValue::Num(t) => {
                let cs = crate::text::str_to_chars(t.as_str());
                match crate::numbers::parse_u8_digits(&cs) {
                    Some(n) => n,
                    None => {
                        return Err(());
                    },
                }
            },
            _ => {
                return Err(());
            },
        },
        None => {
            return Err(());
        },
    };
    Ok(FlairImage { url, name, mime, height, width })
}

} // verus!

verus! {

pub proof fn lemma_view_flair_images_len(xs: Seq<FlairImage>)
    ensures
        view_flair_images(xs).len() == xs.len(),
    decreases xs,
{
    if xs.len() > 0 {
        lemma_view_flair_images_len(xs.drop_last());
        assert(view_flair_images(xs) == view_flair_images(xs.drop_last()).push(xs.last()@));
    }
}

pub proof fn lemma_view_flair_images_index(xs: Seq<FlairImage>, i: int)
    requires
        0 <= i < xs.len(),
    ensures
        view_flair_images(xs).len() == xs.len(),
        view_flair_images(xs)[i] == xs[i]@,
    decreases xs,
{
    lemma_view_flair_images_len(xs);
    lemma_view_flair_images_len(xs.drop_last());
    assert(view_flair_images(xs) == view_flair_images(xs.drop_last()).push(xs.last()@));
    if i < xs.len() - 1 {
        lemma_view_flair_images_index(xs.drop_last(), i);
        assert(xs.drop_last()[i] == xs[i]);
    } else {
        assert(xs[i] == xs.last());
    }
}

/// Decode an array of flair image objects.
#[verifier::loop_isolation(false)]
pub fn decode_flair_images(xs: &Vec<JsonValue>) -> (r: Result<Vec<FlairImage>, ()>)
    ensures
        match r {
            Ok(out) => sp_flair_images(view_arr(xs@)) == Some(view_flair_images(out@)),
            Err(_) => sp_flair_images(view_arr(xs@)) is None,
        },
{
    let ghost va = view_arr(xs@);
    proof {
        lemma_view_arr_len(xs@);
        assert forall|j: int| 0 <= j < xs@.len() implies #[trigger] va[j] == xs@[j]@ by {
            lemma_view_arr_index(xs@, j);
        }
    }
    let mut out: Vec<FlairImage> = Vec::new();
    let mut i: usize = 0;
    proof {
        assert(va.skip(0) =~= va);
        assert(view_flair_images(out@) =~= Seq::<FlairImageV>::empty());
    }
    while i < xs.len()
        invariant
            i <= xs@.len(),
            out@.len() == i,
            view_flair_images(out@).len() == i,
            match sp_flair_images(va.skip(i as int)) {
                None => sp_flair_images(va) is None,
                Some(rest) => sp_flair_images(va) == Some(view_flair_images(out@) + rest),
            },
        decreases xs@.len() - i,
    {
        proof {
            assert(va.skip(i as int).first() == va[i as int]);
            assert(va.skip(i as int).drop_first() =~= va.skip(i + 1));
        }
        match decode_flair_image(&xs[i]) {
            Ok(im) => {
                let ghost old_out = out@;
                let ghost imv = im@;
                out.push(im);
                proof {
                    lemma_view_flair_images_len(out@);
                    assert(out@.drop_last() =~= old_out);
                    assert(view_flair_images(out@) == view_flair_images(old_out).push(imv));
                    if sp_flair_images(va.skip(i + 1)) is Some {
                        let rest2 = sp_flair_images(va.skip(i + 1)).unwrap();
                        assert(sp_flair_images(va.skip(i as int)) == Some((seq![imv] + rest2)));
                        assert(view_flair_images(old_out) + (seq![imv] + rest2)
                            =~= view_flair_images(out@) + rest2);
                    }
                }
                i = i + 1;
            },
            Err(_) => {
                proof {
                    assert(sp_flair_images(va.skip(i as int)) is None);
                }
                return Err(());
            },
        }
    }
    proof {
        assert(va.skip(xs@.len() as int) =~= Seq::<Jv>::empty());
        assert(view_flair_images(out@) + Seq::<FlairImageV>::empty() =~= view_flair_images(out@));
    }
    Ok(out)
}

/// Decode one flair record.
#[verifier::loop_isolation(false)]
#[verifier::rlimit(100)]
#[verifier::spinoff_prover]
pub fn decode_flair(v: &JsonValue) -> (r: Result<Flair, ()>)
    ensures
        match r {
            Ok(f) => sp_flair(v@) == Some(f@),
            Err(_) => sp_flair(v@) is None,
        },
{
    proof {
        crate::json::lemma_view_unfold(*v);
    }
    let fs = match v {
        JsonValue::Obj(fs) => fs,
        _ => {
            return Err(());
        },
    };
    let ghost vf = view_fields(fs@);
    proof {
        lemma_view_fields_len(fs@);
        assert forall|j: int| 0 <= j < fs@.len() implies #[trigger] vf[j] == (
        fs@[j].0@,
        fs@[j].1@,
        ) by {
            lemma_view_fields_index(fs@, j);
        }
    }
    let label = match crate::event::obj_find(fs, &String::from_str("label")) {
        Some(ix) => match &fs[ix].1 {
            JsonValue::Str(s) => s.clone(),
            _ => {
                return Err(());
            },
        },
        None => {
            return Err(());
        },
    };
    let name = match crate::event::obj_find(fs, &String::from_str("name")) {
        Some(ix) => match &fs[ix].1 {
            JsonValue::Str(s) => s.clone(),
            _ => {
                return Err(());
            },
        },
        None => {
            return Err(());
        },
    };
    let description = match crate::event::obj_find(fs, &String::from_str("description")) {
        None => None,
        Some(dx) => match &fs[dx].1 {
            JsonValue::Null => None,
            JsonValue::Str(s) => Some(s.clone()),
            _ => {
                return Err(());
            },
        },
    };
    let hidden = match crate::event::obj_find(fs, &String::from_str("hidden")) {
        Some(hx) => match &fs[hx].1 {
            JsonValue::Bool(b) => *b,
            _ => {
                return Err(());
            },
        },
        None => {
            return Err(());
        },
    };
    let priority = match crate::event::obj_find(fs, &String::from_str("priority")) {
        Some(px) => match &fs[px].1 {
            JsonValue::Num(t) => {
                let cs = crate::text::str_to_chars(t.as_str());
                match crate::numbers::parse_u64_digits(&cs) {
                    Some(n) => {
                        proof {
                            crate::numbers::lemma_canon_u64_some(t@, n);
                        }
                        n
                    },
                    None => {
                        proof {
                            assert(canon_u64(t@) is None) by {
                                if exists|n: u64| t@ == crate::numbers::dec_digits(n as nat) {
                                    let w = choose|n: u64|
                                        t@ == crate::numbers::dec_digits(n as nat);
                                    assert(t@ != crate::numbers::dec_digits(w as nat));
                                }
                            }
                        }
                        return Err(());
                    },
                }
            },
            _ => {
                return Err(());
            },
        },
        None => {
            return Err(());
        },
    };
    let color = match crate::event::obj_find(fs, &String::from_str("color")) {
        Some(cx) => match &fs[cx].1 {
            JsonValue::Null => None,
            JsonValue::Str(s) => {
                if s.as_str().unicode_len() == 0 {
                    proof {
                        assert(s@.len() == 0);
                    }
                    None
                } else {
                    let cs = crate::text::str_to_chars(s.as_str());
                    match Rgb8::parse_text(&cs) {
                        Some(c) => Some(c),
                        None => {
                            return Err(());
                        },
                    }
                }
            },
            _ => {
                return Err(());
            },
        },
        None => {
            return Err(());
        },
    };
    let rainbow_color = match crate::event::obj_find(fs, &String::from_str("rainbowColor")) {
        Some(rx) => match &fs[rx].1 {
            JsonValue::Bool(b) => *b,
            _ => {
                return Err(());
            },
        },
        None => {
            return Err(());
        },
    };
    let image = match crate::event::obj_find(fs, &String::from_str("image")) {
        Some(ix) => match &fs[ix].1 {
            JsonValue::Arr(xs) => match decode_flair_images(xs) {
                Ok(ims) => ims,
                Err(_) => {
                    return Err(());
                },
            },
            _ => {
                return Err(());
            },
        },
        None => {
            return Err(());
        },
    };
    Ok(Flair { label, name, description, hidden, priority, color, rainbow_color, image })
}

} // verus!

verus! {

/// Write one flair image back as its object.
pub fn encode_flair_image(im: &FlairImage) -> (v: JsonValue)
    ensures
        v@ == Jv::Obj(enc_flair_image_fields(im@)),
{
    let mut fields: Vec<(String, JsonValue)> = Vec::new();
    proof {
        assert(view_fields(fields@) =~= Seq::<(Seq<char>, Jv)>::empty());
    }
    let u = JsonValue::Str(im.url.clone());
    proof {
        crate::json::lemma_view_unfold(u);
    }
    let ghost s0 = fields@;
    fields.push((String::from_str("url"), u));
    proof {
        assert(fields@.drop_last() =~= s0);
        assert(view_fields(fields@) == view_fields(s0).push(("url"@, Jv::Str(im.url@))));
    }
    let n = JsonValue::Str(im.name.clone());
    proof {
        crate::json::lemma_view_unfold(n);
    }
    let ghost s1 = fields@;
    fields.push((String::from_str("name"), n));
    proof {
        assert(fields@.drop_last() =~= s1);
        assert(view_fields(fields@) == view_fields(s1).push(("name"@, Jv::Str(im.name@))));
    }
    let m = JsonValue::Str(im.mime.clone());
    proof {
        crate::json::lemma_view_unfold(m);
    }
    let ghost s2 = fields@;
    fields.push((String::from_str("mime"), m));
    proof {
        assert(fields@.drop_last() =~= s2);
        assert(view_fields(fields@) == view_fields(s2).push(("mime"@, Jv::Str(im.mime@))));
    }
    let h = JsonValue::Num(crate::numbers::u64_to_text(im.height as u64));
    proof {
        crate::json::lemma_view_unfold(h);
    }
    let ghost s3 = fields@;
    fields.push((String::from_str("height"), h));
    proof {
        assert(fields@.drop_last() =~= s3);
        assert(view_fields(fields@) == view_fields(s3).push(
            ("height"@, Jv::Num(dec_digits(im.height as nat))),
        ));
    }
    let w = JsonValue::Num(crate::numbers::u64_to_text(im.width as u64));
    proof {
        crate::json::lemma_view_unfold(w);
    }
    let ghost s4 = fields@;
    fields.push((String::from_str("width"), w));
    proof {
        assert(fields@.drop_last() =~= s4);
        assert(view_fields(fields@) == view_fields(s4).push(
            ("width"@, Jv::Num(dec_digits(im.width as nat))),
        ));
    }
    let v = JsonValue::Obj(fields);
    proof {
        crate::json::lemma_view_unfold(v);
        assert(view_fields(v->Obj_0@) =~= enc_flair_image_fields(im@));
    }
    v
}

/// Write one flair back as its object.
#[verifier::rlimit(100)]
#[verifier::spinoff_prover]
pub fn encode_flair(f: &Flair) -> (v: JsonValue)
    ensures
        v@ == Jv::Obj(enc_flair_fields(f@)),
{
    let mut fields: Vec<(String, JsonValue)> = Vec::new();
    proof {
        assert(view_fields(fields@) =~= Seq::<(Seq<char>, Jv)>::empty());
    }
    let l = JsonValue::Str(f.label.clone());
    proof {
        crate::json::lemma_view_unfold(l);
    }
    let ghost s0 = fields@;
    fields.push((String::from_str("label"), l));
    proof {
        assert(fields@.drop_last() =~= s0);
        assert(view_fields(fields@) == view_fields(s0).push(("label"@, Jv::Str(f.label@))));
    }
    let n = JsonValue::Str(f.name.clone());
    proof {
        crate::json::lemma_view_unfold(n);
    }
    let ghost s1 = fields@;
    fields.push((String::from_str("name"), n));
    proof {
        assert(fields@.drop_last() =~= s1);
        assert(view_fields(fields@) == view_fields(s1).push(("name"@, Jv::Str(f.name@))));
    }
    match &f.description {
        Some(d) => {
            let dv = JsonValue::Str(d.clone());
            proof {
                crate::json::lemma_view_unfold(dv);
            }
            let ghost s2 = fields@;
            fields.push((String::from_str("description"), dv));
            proof {
                assert(fields@.drop_last() =~= s2);
                assert(view_fields(fields@) == view_fields(s2).push(
                    ("description"@, Jv::Str(d@)),
                ));
            }
        },
        None => {},
    }
    let h = JsonValue::Bool(f.hidden);
    proof {
        crate::json::lemma_view_unfold(h);
    }
    let ghost s3 = fields@;
    fields.push((String::from_str("hidden"), h));
    proof {
        assert(fields@.drop_last() =~= s3);
        assert(view_fields(fields@) == view_fields(s3).push(("hidden"@, Jv::Bool(f.hidden))));
    }
    let p = JsonValue::Num(crate::numbers::u64_to_text(f.priority));
    proof {
        crate::json::lemma_view_unfold(p);
    }
    let ghost s4 = fields@;
    fields.push((String::from_str("priority"), p));
    proof {
        assert(fields@.drop_last() =~= s4);
        assert(view_fields(fields@) == view_fields(s4).push(
            ("priority"@, Jv::Num(dec_digits(f.priority as nat))),
        ));
    }
    let cv = match &f.color {
        Some(c) => JsonValue::Str(c.to_text()),
        None => JsonValue::Null,
    };
    proof {
        crate::json::lemma_view_unfold(cv);
    }
    let ghost s5 = fields@;
    fields.push((String::from_str("color"), cv));
    proof {
        assert(fields@.drop_last() =~= s5);
        assert(view_fields(fields@) == view_fields(s5).push(
            (
                "color"@,
                match f@.color {
                    Some(c) => Jv::Str(color_text(c)),
                    None => Jv::Null,
                },
            ),
        ));
    }
    let r = JsonValue::Bool(f.rainbow_color);
    proof {
        crate::json::lemma_view_unfold(r);
    }
    let ghost s6 = fields@;
    fields.push((String::from_str("rainbowColor"), r));
    proof {
        assert(fields@.drop_last() =~= s6);
        assert(view_fields(fields@) == view_fields(s6).push(
            ("rainbowColor"@, Jv::Bool(f.rainbow_color)),
        ));
    }
    let mut ims: Vec<JsonValue> = Vec::new();
    let mut i: usize = 0;
    proof {
        lemma_view_flair_images_len(f.image@);
        assert forall|j: int| 0 <= j < f.image@.len() implies #[trigger] view_flair_images(
            f.image@,
        )[j] == f.image@[j]@ by {
            lemma_view_flair_images_index(f.image@, j);
        }
        assert(view_arr(ims@) =~= flair_image_values(view_flair_images(f.image@).take(0)));
        assert(view_flair_images(f.image@).take(0) =~= Seq::<FlairImageV>::empty());
    }
    while i < f.image.len()
        invariant
            i <= f.image@.len(),
            view_flair_images(f.image@).len() == f.image@.len(),
            forall|j: int|
                0 <= j < f.image@.len() ==> #[trigger] view_flair_images(f.image@)[j]
                    == f.image@[j]@,
            view_arr(ims@) == flair_image_values(view_flair_images(f.image@).take(i as int)),
        decreases f.image@.len() - i,
    {
        let iv = encode_flair_image(&f.image[i]);
        let ghost old_ims = ims@;
        ims.push(iv);
        proof {
            let ghost imgs = view_flair_images(f.image@);
            assert(ims@.drop_last() =~= old_ims);
            assert(view_arr(ims@) == view_arr(old_ims).push(Jv::Obj(enc_flair_image_fields(
                f.image@[i as int]@,
            ))));
            assert(imgs.take(i + 1).drop_last() =~= imgs.take(i as int));
            assert(imgs.take(i + 1).last() == imgs[i as int]);
            assert(flair_image_values(imgs.take(i + 1)) == flair_image_values(
                imgs.take(i as int),
            ).push(Jv::Obj(enc_flair_image_fields(imgs[i as int]))));
        }
        i = i + 1;
    }
    proof {
        assert(view_flair_images(f.image@).take(f.image@.len() as int) =~= view_flair_images(
            f.image@,
        ));
    }
    let imv = JsonValue::Arr(ims);
    proof {
        crate::json::lemma_view_unfold(imv);
    }
    let ghost s7 = fields@;
    fields.push((String::from_str("image"), imv));
    proof {
        assert(fields@.drop_last() =~= s7);
        assert(view_fields(fields@) == view_fields(s7).push(
            ("image"@, Jv::Arr(flair_image_values(view_flair_images(f.image@)))),
        ));
    }
    let v = JsonValue::Obj(fields);
    proof {
        crate::json::lemma_view_unfold(v);
        assert(view_fields(v->Obj_0@) =~= enc_flair_fields(f@));
    }
    v
}

} // verus!

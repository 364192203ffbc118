//! Embedded stream links: `#platform/id` words found in chat messages, and
//! the watch addresses they stand for.

use vstd::prelude::*;

verus! {

/// The platforms an embed link can point at.
#[derive(Debug, Clone, Copy, PartialEq, Eq, Structural)]
pub enum EmbedLinkKind {
    YouTube,
    Twitch,
    Kick,
}

/// One embedded link: the platform, the stream or video id, and the word it
/// was read from.
#[derive(Debug, Clone, PartialEq)]
pub struct EmbedLink {
    pub platform: EmbedLinkKind,
    pub id: String,
    pub original: String,
}

/// The watch address of an embed link.
pub open spec fn url_text(k: EmbedLinkKind, id: Seq<char>) -> Seq<char> {
    match k {
        EmbedLinkKind::YouTube => "https://www.youtube.com/watch?v="@ + id,
        EmbedLinkKind::Twitch => "https://www.twitch.tv/"@ + id,
        EmbedLinkKind::Kick => "https://kick.tv/"@ + id,
    }
}

impl EmbedLink {
    /// An embed link from its parts. The platform word must be one of the
    /// known platforms.
    pub fn new(original: &str, platform: &str, id: &str) -> (r: Result<EmbedLink, crate::ChatError>)
        ensures
            match r {
                Ok(l) => (platform@ == "youtube"@ ==> l.platform is YouTube) && (platform@
                    == "twitch"@ ==> l.platform is Twitch) && (platform@ == "kick"@
                    ==> l.platform is Kick) && l.id@ == id@ && l.original@ == original@,
                Err(e) => e is DecodeError && platform@ != "youtube"@ && platform@ != "twitch"@
                    && platform@ != "kick"@,
            },
    {
        proof {
            reveal_strlit("youtube");
            reveal_strlit("twitch");
            reveal_strlit("kick");
            assert("youtube"@.len() == 7 && "twitch"@.len() == 6 && "kick"@.len() == 4);
            assert("youtube"@ != "twitch"@ && "youtube"@ != "kick"@ && "twitch"@ != "kick"@);
        }
        let p = platform.to_owned();
        let kind = if p == String::from_str("youtube") {
            EmbedLinkKind::YouTube
        } else if p == String::from_str("twitch") {
            EmbedLinkKind::Twitch
        } else if p == String::from_str("kick") {
            EmbedLinkKind::Kick
        } else {
            return Err(crate::ChatError::DecodeError(p));
        };
        Ok(EmbedLink { platform: kind, id: id.to_owned(), original: original.to_owned() })
    }

    /// The watch address this link points at.
    pub fn url(&self) -> (s: String)
        ensures
            s@ == url_text(self.platform, self.id@),
    {
        match self.platform {
            EmbedLinkKind::YouTube => {
                let mut s = String::from_str("https://www.youtube.com/watch?v=");
                s.append(self.id.as_str());
                s
            },
            EmbedLinkKind::Twitch => {
                let mut s = String::from_str("https://www.twitch.tv/");
                s.append(self.id.as_str());
                s
            },
            EmbedLinkKind::Kick => {
                let mut s = String::from_str("https://kick.tv/");
                s.append(self.id.as_str());
                s
            },
        }
    }

    /// The word the link was read from.
    pub fn value(&self) -> (s: &str)
        ensures
            s@ == self.original@,
    {
        self.original.as_str()
    }
}

} // verus!

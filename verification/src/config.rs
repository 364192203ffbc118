//! The client configuration: the endpoints the client talks to, the cache
//! file location, and the session token.

use vstd::prelude::*;

verus! {

/// The addresses and credentials one client session runs with.
#[derive(Debug, Clone)]
pub struct ChatAppConfig {
    pub cdn_url: String,
    pub websocket_url: String,
    pub origin_url: String,
    pub cache_path: Option<String>,
    pub token: Option<String>,
}

impl ChatAppConfig {
    /// A configuration from its parts.
    pub fn new(
        cdn_url: String,
        websocket_url: String,
        origin_url: String,
        cache_path: Option<String>,
        token: Option<String>,
    ) -> (c: ChatAppConfig)
        ensures
            c.cdn_url@ == cdn_url@,
            c.websocket_url@ == websocket_url@,
            c.origin_url@ == origin_url@,
            c.cache_path == cache_path,
            c.token == token,
    {
        ChatAppConfig { cdn_url, websocket_url, origin_url, cache_path, token }
    }

    /// The CDN base address.
    pub fn get_cdn_url(&self) -> (s: String)
        ensures
            s@ == self.cdn_url@,
    {
        self.cdn_url.clone()
    }

    /// The chat socket address.
    pub fn get_websocket_url(&self) -> (s: String)
        ensures
            s@ == self.websocket_url@,
    {
        self.websocket_url.clone()
    }
}

} // verus!

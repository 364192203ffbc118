//! A stand-in chat server for tests: the caller binds the address and echoes
//! frames; this holds its settings.

use vstd::prelude::*;

verus! {

/// The settings of a stand-in chat server.
#[derive(Debug, Clone, PartialEq)]
pub struct MockChatServer {
    pub address: String,
    pub is_started: bool,
}

impl MockChatServer {
    /// A server for the given address, not yet started.
    pub fn new(addr: &str) -> (s: MockChatServer)
        ensures
            s.address@ == addr@,
            !s.is_started,
    {
        MockChatServer { address: addr.to_owned(), is_started: false }
    }

    /// Mark the server started.
    pub fn mark_started(&mut self)
        ensures
            final(self).is_started,
            final(self).address@ == old(self).address@,
    {
        self.is_started = true;
    }
}

} // verus!

//! The buffer client: the embedded-mode stand-in for the outbound
//! transport. Instead of sending, it keeps the encoded buffer in a single
//! slot and hands it back to the caller on request.

use vstd::prelude::*;

verus! {

/// A single-slot buffer standing in for the outbound transport.
pub struct BufferClient {
    pub slot: Option<Vec<u8>>,
}

impl Default for BufferClient {
    fn default() -> (r: BufferClient)
        ensures
            r.slot is None,
    {
        BufferClient::new()
    }
}

impl BufferClient {
    /// A fresh client with an empty slot.
    pub fn new() -> (r: BufferClient)
        ensures
            r.slot is None,
    {
        BufferClient { slot: None }
    }

    /// Fire-and-forget handoff: the encoded buffer fills the slot.
    pub fn request(&mut self, data: Vec<u8>)
        ensures
            final(self).slot == Some(data),
    {
        self.slot = Some(data);
    }

    /// The response buffer, handed back once; the slot empties.
    pub fn on_response(&mut self) -> (r: Option<Vec<u8>>)
        ensures
            r == old(self).slot,
            final(self).slot is None,
    {
        self.slot.take()
    }
}

} // verus!

//! Single-use reply slots.
//!
//! A reply slot is the one synchronisation primitive that crosses the
//! boundary between the synchronous workers and the asynchronous callback
//! handler: single-writer, single-reader, written at most once. Dropping a
//! slot without writing it is observable on the receiver side as an error.

use vstd::prelude::*;

verus! {

/// The receiver's view of a slot that was dropped before being written.
#[derive(Debug, Clone, PartialEq, Eq)]
pub struct ReplyChannelClosed;

/// A single-use, one-writer-one-reader reply slot.
///
/// `send` demands an unwritten slot, so a slot is written at most once;
/// every function of this crate that settles a request guarantees in its
/// `ensures` that the slot ends up written, so each settled request gets
/// exactly one reply.
pub struct ReplySlot<T> {
    message: Option<T>,
}

impl<T> ReplySlot<T> {
    /// What the slot currently holds: `None` until a reply is sent.
    pub closed spec fn contents(&self) -> Option<T> {
        self.message
    }

    /// True once a reply has been written.
    pub open spec fn is_written(&self) -> bool {
        self.contents() is Some
    }

    /// A fresh, unwritten slot.
    pub fn new() -> (r: Self)
        ensures
            !r.is_written(),
    {
        ReplySlot { message: None }
    }

    /// Write the one reply this slot will ever carry.
    pub fn send(&mut self, value: T)
        requires
            !old(self).is_written(),
        ensures
            final(self).contents() == Some(value),
    {
        self.message = Some(value);
    }

    /// Consume the slot on the receiver side. A slot dropped without a
    /// write surfaces as `ReplyChannelClosed`.
    pub fn receive(self) -> (r: Result<T, ReplyChannelClosed>)
        ensures
            match self.contents() {
                Some(m) => r == Ok::<T, ReplyChannelClosed>(m),
                None => r is Err,
            },
    {
        match self.message {
            Some(m) => Ok(m),
            None => Err(ReplyChannelClosed),
        }
    }
}

} // verus!

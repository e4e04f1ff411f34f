use vstd::prelude::*;

verus! {

/// Source of request and reply identifiers for one node.
///
/// The counter starts at 1 and hands out each value once, in increasing
/// order, until the 64-bit range is exhausted and it wraps to 0.
#[derive(Clone, Copy, Debug, PartialEq, Eq)]
pub struct IdCounter {
    pub next: u64,
}

/// The identifier that follows `id`.
pub open spec fn id_after(id: u64) -> u64 {
    if id == u64::MAX {
        0
    } else {
        (id + 1) as u64
    }
}

impl IdCounter {
    pub fn new() -> (ids: IdCounter)
        ensures
            ids.next == 1,
    {
        IdCounter { next: 1 }
    }

    /// Hands out the current identifier and moves to the following one.
    pub fn take(&mut self) -> (id: u64)
        ensures
            id == old(self).next,
            final(self).next == id_after(old(self).next),
    {
        let id: u64 = self.next;
        self.next = if id == u64::MAX {
            0
        } else {
            id + 1
        };
        id
    }
}

/// The part of a message that the protocols read: identifiers and payload.
#[derive(Clone, Debug, PartialEq, Eq)]
pub struct Body<P> {
    pub id: Option<u64>,
    pub in_reply_to: Option<u64>,
    pub payload: P,
}

/// One message on the wire.
#[derive(Clone, Debug, PartialEq, Eq)]
pub struct Message<P> {
    pub src: String,
    pub dest: String,
    pub body: Body<P>,
}

/// What the runtime hands to a node: an inbound message, a locally produced
/// trigger, or the end of the input stream.
#[derive(Clone, Debug, PartialEq, Eq)]
pub enum Event<P, I> {
    Message(Message<P>),
    Injected(I),
    Eof,
}

impl<P> Message<P> {
    /// A message is a reply when it carries `in_reply_to`.
    pub fn is_reply(&self) -> (b: bool)
        ensures
            b == self.body.in_reply_to.is_some(),
    {
        self.body.in_reply_to.is_some()
    }

    /// Turns a request into the skeleton of its reply: source and
    /// destination swapped, a fresh identifier, `in_reply_to` set to the
    /// request's identifier, the payload carried over for the caller to
    /// replace.
    pub fn into_reply(self, ids: &mut IdCounter) -> (reply: Message<P>)
        ensures
            reply.src == self.dest,
            reply.dest == self.src,
            reply.body.id == Some(old(ids).next),
            reply.body.in_reply_to == self.body.id,
            reply.body.payload == self.body.payload,
            final(ids).next == id_after(old(ids).next),
    {
        let id: u64 = ids.take();
        Message {
            src: self.dest,
            dest: self.src,
            body: Body { id: Some(id), in_reply_to: self.body.id, payload: self.body.payload },
        }
    }
}

} // verus!

use vstd::prelude::*;
use vstd::string::*;
use crate::decimal::{counter_text, digits_tell_numbers_apart, push_counter, suffix_is_told};
use crate::message::{id_after, Body, Event, IdCounter, Message};

verus! {

/// Payloads of the unique-identifier protocol.
#[derive(Clone, Debug, PartialEq, Eq)]
pub enum IdPayload {
    Generate,
    GenerateOk { guid: String },
}

/// The identifier that `node` generates while its counter stands at
/// `counter`: the node's name, a hyphen and the counter.
pub open spec fn guid_text(node: Seq<char>, counter: u64) -> Seq<char> {
    node + "-"@ + counter_text(counter)
}

/// Builds the identifier of `node` at `counter`.
pub fn make_guid(node: &String, counter: u64) -> (guid: String)
    ensures
        guid@ == guid_text(node@, counter),
{
    let mut guid = node.clone();
    guid.append("-");
    push_counter(&mut guid, counter);
    guid
}

/// One node gives different identifiers at different counter values.
pub proof fn guids_differ(node: Seq<char>, a: u64, b: u64)
    requires
        guid_text(node, a) == guid_text(node, b),
    ensures
        a == b,
{
    suffix_is_told(node + "-"@, counter_text(a), counter_text(b));
    digits_tell_numbers_apart(a as nat, b as nat);
}

/// A node that answers every `Generate` with an identifier made of its
/// own name, a hyphen and the text of its counter.
pub struct UniqueIdsNode {
    pub node: String,
    pub ids: IdCounter,
}

impl UniqueIdsNode {
    /// The node as it is after the handshake.
    pub fn from_init(node_id: String) -> (node: UniqueIdsNode)
        ensures
            node.node == node_id,
            node.ids.next == 1,
    {
        UniqueIdsNode { node: node_id, ids: IdCounter::new() }
    }

    /// Handles one event. A `Generate` is answered with an identifier made
    /// of this node's name and the counter as it stands once the reply has
    /// taken its own identifier; a `GenerateOk` is passed over. Every
    /// message uses up one identifier. Anything that is no message, the
    /// end of the input among them, gives no reply and leaves the node as
    /// it was.
    pub fn handle<I>(&mut self, event: Event<IdPayload, I>) -> (out: Option<Message<IdPayload>>)
        ensures
            final(self).node == old(self).node,
            match event {
                Event::Message(m) => {
                    &&& final(self).ids.next == id_after(old(self).ids.next)
                    &&& match m.body.payload {
                        IdPayload::Generate => {
                            &&& out matches Some(reply)
                            &&& reply.src == m.dest
                            &&& reply.dest == m.src
                            &&& reply.body.id == Some(old(self).ids.next)
                            &&& reply.body.in_reply_to == m.body.id
                            &&& reply.body.payload matches IdPayload::GenerateOk { guid }
                            &&& guid@ == guid_text(old(self).node@, id_after(old(self).ids.next))
                        },
                        IdPayload::GenerateOk { .. } => out.is_none(),
                    }
                },
                _ => out.is_none() && *final(self) == *old(self),
            },
    {
        match event {
            Event::Message(message) => {
                let reply = message.into_reply(&mut self.ids);
                let Message { src, dest, body } = reply;
                let Body { id, in_reply_to, payload } = body;
                match payload {
                    IdPayload::Generate => {
                        let guid = make_guid(&self.node, self.ids.next);
                        Some(
                            Message {
                                src,
                                dest,
                                body: Body { id, in_reply_to, payload: IdPayload::GenerateOk { guid } },
                            },
                        )
                    },
                    IdPayload::GenerateOk { .. } => None,
                }
            },
            _ => None,
        }
    }
}

} // verus!

use vstd::prelude::*;
use std::collections::HashMap;
use crate::message::{id_after, Body, IdCounter, Message};

verus! {

broadcast use vstd::std_specs::hash::group_hash_axioms;

/// Why a reply could not be matched to a call.
#[derive(Clone, Copy, Debug, PartialEq, Eq, Structural)]
pub enum RpcError {
    /// No call with this identifier is outstanding: the peer answered a
    /// request that was never made, or answered one twice.
    UnknownReply { id: u64 },
}

/// The outstanding calls of a node: for each request identifier the
/// single-use slot that waits for its reply.
pub struct RpcTable<T> {
    pub slots: HashMap<u64, T>,
}

impl<T> View for RpcTable<T> {
    type V = Map<u64, T>;

    open spec fn view(&self) -> Map<u64, T> {
        self.slots@
    }
}

/// Completing the call `id`: the table without it and the slot it held, or
/// the table unchanged and nothing where no such call is outstanding.
pub open spec fn complete_spec<T>(table: Map<u64, T>, id: u64) -> (Map<u64, T>, Option<T>) {
    if table.contains_key(id) {
        (table.remove(id), Some(table[id]))
    } else {
        (table, None)
    }
}

impl<T> RpcTable<T> {
    pub fn new() -> (table: Self)
        ensures
            table@ == Map::<u64, T>::empty(),
    {
        RpcTable { slots: HashMap::new() }
    }

    /// Whether a call with this identifier waits for its reply.
    pub fn is_outstanding(&self, id: u64) -> (b: bool)
        ensures
            b == self@.contains_key(id),
    {
        self.slots.contains_key(&id)
    }

    /// Registers `slot` under `id`. A slot that was still registered under
    /// the same identifier is handed back.
    pub fn register(&mut self, id: u64, slot: T) -> (displaced: Option<T>)
        ensures
            final(self)@ == old(self)@.insert(id, slot),
            displaced == (if old(self)@.contains_key(id) {
                Some(old(self)@[id])
            } else {
                None
            }),
    {
        self.slots.insert(id, slot)
    }

    /// Starts a call: takes the next identifier, registers `slot` under it
    /// and returns the request to transmit. The slot is in the table before
    /// the caller can send anything.
    pub fn begin_call<P>(
        &mut self,
        ids: &mut IdCounter,
        src: &String,
        dest: &String,
        payload: P,
        slot: T,
    ) -> (request: Message<P>)
        ensures
            request.src == *src,
            request.dest == *dest,
            request.body.id == Some(old(ids).next),
            request.body.in_reply_to.is_none(),
            request.body.payload == payload,
            final(ids).next == id_after(old(ids).next),
            final(self)@ == old(self)@.insert(old(ids).next, slot),
    {
        let id: u64 = ids.take();
        let _ = self.slots.insert(id, slot);
        Message {
            src: src.clone(),
            dest: dest.clone(),
            body: Body { id: Some(id), in_reply_to: None, payload },
        }
    }

    /// Takes the slot of the call that a reply with `in_reply_to == id`
    /// answers, and removes it from the table. A reply to a call that is
    /// not outstanding is reported and changes nothing.
    pub fn complete(&mut self, id: u64) -> (r: Result<T, RpcError>)
        ensures
            final(self)@ == complete_spec(old(self)@, id).0,
            match r {
                Ok(slot) => complete_spec(old(self)@, id).1 == Some(slot),
                Err(e) => complete_spec(old(self)@, id).1.is_none() && e == (RpcError::UnknownReply {
                    id,
                }),
            },
    {
        match self.slots.remove(&id) {
            Some(slot) => Ok(slot),
            None => Err(RpcError::UnknownReply { id }),
        }
    }
}

/// A call is completed exactly once: the first reply to an outstanding
/// call gets its slot, a second reply with the same identifier finds
/// nothing, and completing one call leaves every other one as it was.
pub proof fn completion_is_once<T>(table: Map<u64, T>, id: u64, other: u64)
    requires
        other != id,
    ensures
        table.contains_key(id) ==> complete_spec(table, id).1 == Some(table[id]),
        !table.contains_key(id) ==> complete_spec(table, id) == (table, None::<T>),
        complete_spec(complete_spec(table, id).0, id).1.is_none(),
        complete_spec(complete_spec(table, id).0, other).1 == complete_spec(table, other).1,
{
}

/// Whether every outstanding identifier is below `next`.
pub open spec fn all_below<T>(table: Map<u64, T>, next: u64) -> bool {
    forall|id: u64| table.contains_key(id) ==> id < next
}

/// An identifier is not reused while it is outstanding. A table that is
/// filled by `begin_call` alone holds only identifiers below the counter:
/// so it is at the start, and so it stays through every call and every
/// completion, up to the last identifier of the range. The identifier that
/// a new call takes is therefore in no one's use.
pub proof fn fresh_ids_are_not_outstanding<T>(table: Map<u64, T>, next: u64, slot: T, done: u64)
    requires
        all_below(table, next),
        next < u64::MAX,
    ensures
        !table.contains_key(next),
        all_below(table.insert(next, slot), id_after(next)),
        all_below(complete_spec(table, done).0, next),
        all_below(Map::<u64, T>::empty(), 1),
{
}

} // verus!

use vstd::prelude::*;
use crate::kv::{
    committed_key, entry_key, latest_key, make_committed_key, make_entry_key, make_latest_key,
    KvCall, KvCallView, KvOutcome, KvRequest, KvRequestView, Store,
};
use crate::message::{id_after, Body, Event, IdCounter, Message};
use crate::rpc::{complete_spec, RpcError, RpcTable};

verus! {

/// Number of consecutive offsets that one poll reads per key.
pub const WINDOW: i64 = 5;

/// Payloads of the log protocol and of the key-value client protocol.
#[derive(Clone, Debug, PartialEq, Eq)]
pub enum LogPayload {
    Send { key: String, msg: i64 },
    SendOk { offset: i64 },
    Poll { offsets: Vec<(String, i64)> },
    PollOk { msgs: Vec<(String, Vec<(i64, i64)>)> },
    CommitOffsets { offsets: Vec<(String, i64)> },
    CommitOffsetsOk,
    ListCommittedOffsets { keys: Vec<String> },
    ListCommittedOffsetsOk { offsets: Vec<(String, i64)> },
    Read { key: String },
    ReadOk { value: i64 },
    Error { code: u64, text: String },
    Write { key: String, value: i64 },
    WriteOk,
    Cas { key: String, from: i64, to: i64, create: bool },
    CasOk,
}

/// The outcome that a reply payload stands for.
pub open spec fn outcome_of_payload(payload: LogPayload) -> KvOutcome {
    match payload {
        LogPayload::ReadOk { value } => KvOutcome::Value(value),
        LogPayload::WriteOk => KvOutcome::Written,
        LogPayload::CasOk => KvOutcome::Swapped,
        _ => KvOutcome::Failed,
    }
}

/// Reads the outcome of a key-value call off the payload of its reply.
pub fn outcome_of(payload: &LogPayload) -> (outcome: KvOutcome)
    ensures
        outcome == outcome_of_payload(*payload),
{
    match payload {
        LogPayload::ReadOk { value } => KvOutcome::Value(*value),
        LogPayload::WriteOk => KvOutcome::Written,
        LogPayload::CasOk => KvOutcome::Swapped,
        _ => KvOutcome::Failed,
    }
}

/// The payload that carries `request` to a key-value service.
pub open spec fn payload_of(request: KvRequest) -> LogPayload {
    match request {
        KvRequest::Read { key } => LogPayload::Read { key },
        KvRequest::Write { key, value } => LogPayload::Write { key, value },
        KvRequest::Cas { key, from, to, create } => LogPayload::Cas { key, from, to, create },
    }
}

pub fn request_payload(request: KvRequest) -> (payload: LogPayload)
    ensures
        payload == payload_of(request),
{
    match request {
        KvRequest::Read { key } => LogPayload::Read { key },
        KvRequest::Write { key, value } => LogPayload::Write { key, value },
        KvRequest::Cas { key, from, to, create } => LogPayload::Cas { key, from, to, create },
    }
}

/// Where the runtime sends an event of the log node.
pub enum Routed {
    /// Nothing to do: end of input, a trigger, or a payload that only ever
    /// travels as a response.
    Idle,
    /// A reply to an outstanding call: complete the slot registered for `id`.
    Completion { id: u64, message: Message<LogPayload> },
    /// A request to serve; `reply` is its reply skeleton, still carrying the
    /// request's payload.
    Request { reply: Message<LogPayload> },
}

/// Whether a payload asks the log node for work.
pub open spec fn is_log_request(payload: LogPayload) -> bool {
    payload is Send || payload is Poll || payload is CommitOffsets
        || payload is ListCommittedOffsets
}

pub open spec fn route_spec<I>(event: Event<LogPayload, I>, next: u64) -> (Routed, u64) {
    match event {
        Event::Eof => (Routed::Idle, next),
        Event::Injected(_) => (Routed::Idle, next),
        Event::Message(message) => match message.body.in_reply_to {
            Some(id) => (Routed::Completion { id, message }, next),
            None => if is_log_request(message.body.payload) {
                (
                    Routed::Request {
                        reply: Message {
                            src: message.dest,
                            dest: message.src,
                            body: Body {
                                id: Some(next),
                                in_reply_to: message.body.id,
                                payload: message.body.payload,
                            },
                        },
                    },
                    id_after(next),
                )
            } else {
                (Routed::Idle, id_after(next))
            },
        },
    }
}

/// Decides what an event is: a reply goes to the correlation table and is
/// never served as a request; every other message consumes one identifier
/// and is served only if its payload is a request of the log protocol.
pub fn route<I>(event: Event<LogPayload, I>, ids: &mut IdCounter) -> (routed: Routed)
    ensures
        routed == route_spec(event, old(ids).next).0,
        final(ids).next == route_spec(event, old(ids).next).1,
{
    match event {
        Event::Eof => Routed::Idle,
        Event::Injected(_) => Routed::Idle,
        Event::Message(message) => {
            match message.body.in_reply_to {
                Some(id) => Routed::Completion { id, message },
                None => {
                    let reply = message.into_reply(ids);
                    let serve = match &reply.body.payload {
                        LogPayload::Send { .. } => true,
                        LogPayload::Poll { .. } => true,
                        LogPayload::CommitOffsets { .. } => true,
                        LogPayload::ListCommittedOffsets { .. } => true,
                        _ => false,
                    };
                    if serve {
                        Routed::Request { reply }
                    } else {
                        Routed::Idle
                    }
                },
            }
        },
    }
}

/// The state of a log node: its name, its identifiers and its outstanding
/// calls. The log itself lives in the two key-value services.
pub struct LogNode<T> {
    pub node: String,
    pub ids: IdCounter,
    pub rpc: RpcTable<T>,
}

/// What the runtime is to do with an event.
pub enum Dispatch<T> {
    /// Nothing.
    Idle,
    /// Hand `message` to `slot`, which waited for it and is no longer in
    /// the table.
    Complete { slot: T, message: Message<LogPayload> },
    /// Serve the request whose reply skeleton this is.
    Serve { reply: Message<LogPayload> },
}

impl<T> LogNode<T> {
    pub fn from_init(node_id: String) -> (node: LogNode<T>)
        ensures
            node.node == node_id,
            node.ids.next == 1,
            node.rpc@ == Map::<u64, T>::empty(),
    {
        LogNode { node: node_id, ids: IdCounter::new(), rpc: RpcTable::new() }
    }

    /// Starts one call to a key-value service: the request to transmit,
    /// with `slot` registered under its identifier.
    pub fn call(&mut self, store: Store, request: KvRequest, slot: T) -> (m: Message<LogPayload>)
        ensures
            final(self).node == old(self).node,
            final(self).ids.next == id_after(old(self).ids.next),
            final(self).rpc@ == old(self).rpc@.insert(old(self).ids.next, slot),
            m.src == old(self).node,
            m.dest@ == (match store {
                Store::Linearizable => "lin-kv"@,
                Store::Sequential => "seq-kv"@,
            }),
            m.body.id == Some(old(self).ids.next),
            m.body.in_reply_to.is_none(),
            m.body.payload == payload_of(request),
    {
        let dest = store.address();
        let payload = request_payload(request);
        self.rpc.begin_call(&mut self.ids, &self.node, &dest, payload, slot)
    }

    /// Handles one event. A reply takes the slot of its call out of the
    /// table, or is reported where no such call is outstanding; it is never
    /// served as a request.
    pub fn handle<I>(&mut self, event: Event<LogPayload, I>) -> (r: Result<Dispatch<T>, RpcError>)
        ensures
            final(self).node == old(self).node,
            final(self).ids.next == route_spec(event, old(self).ids.next).1,
            match route_spec(event, old(self).ids.next).0 {
                Routed::Idle => r == Ok::<Dispatch<T>, RpcError>(Dispatch::Idle) && final(self).rpc@
                    == old(self).rpc@,
                Routed::Request { reply } => r == Ok::<Dispatch<T>, RpcError>(
                    Dispatch::Serve { reply },
                ) && final(self).rpc@ == old(self).rpc@,
                Routed::Completion { id, message } => {
                    &&& final(self).rpc@ == complete_spec(old(self).rpc@, id).0
                    &&& match complete_spec(old(self).rpc@, id).1 {
                        Some(slot) => r == Ok::<Dispatch<T>, RpcError>(
                            Dispatch::Complete { slot, message },
                        ),
                        None => r == Err::<Dispatch<T>, RpcError>(RpcError::UnknownReply { id }),
                    }
                },
            },
    {
        match route(event, &mut self.ids) {
            Routed::Idle => Ok(Dispatch::Idle),
            Routed::Request { reply } => Ok(Dispatch::Serve { reply }),
            Routed::Completion { id, message } => {
                match self.rpc.complete(id) {
                    Ok(slot) => Ok(Dispatch::Complete { slot, message }),
                    Err(e) => Err(e),
                }
            },
        }
    }
}

/// The offset one below `offset`, wrapping at the lower end of `i64`.
pub open spec fn offset_before(offset: i64) -> i64 {
    if offset == i64::MIN {
        i64::MAX
    } else {
        (offset - 1) as i64
    }
}

/// The offset one above `offset`, wrapping at the upper end of `i64`.
pub open spec fn offset_after(offset: i64) -> i64 {
    if offset == i64::MAX {
        i64::MIN
    } else {
        (offset + 1) as i64
    }
}

/// Where an append stands in its allocation protocol.
#[derive(Clone, Copy, Debug, PartialEq, Eq, Structural)]
pub enum SendStep {
    /// Waiting for the read of the latest-offset marker.
    ReadLatest,
    /// Waiting for the compare-and-swap that claims `candidate`.
    Claim { candidate: i64 },
    /// `offset` is allocated; waiting for the write of the entry.
    StoreMessage { offset: i64 },
    /// Waiting for the best-effort refresh of the hint.
    RefreshHint { offset: i64 },
    /// Finished: reply with `offset`.
    Done { offset: i64 },
}

/// The step that follows `step` once its call came back with `outcome`.
pub open spec fn step_after(step: SendStep, outcome: KvOutcome) -> SendStep {
    match step {
        SendStep::ReadLatest => SendStep::Claim {
            candidate: match outcome {
                KvOutcome::Value(v) => v,
                _ => 0,
            },
        },
        SendStep::Claim { candidate } => if outcome == KvOutcome::Swapped {
            SendStep::StoreMessage { offset: candidate }
        } else {
            SendStep::Claim { candidate: offset_after(candidate) }
        },
        SendStep::StoreMessage { offset } => SendStep::RefreshHint { offset },
        SendStep::RefreshHint { offset } => SendStep::Done { offset },
        SendStep::Done { offset } => SendStep::Done { offset },
    }
}

/// The compare-and-swap that claims `candidate` as the next offset of `key`.
pub open spec fn claim_request(key: Seq<char>, candidate: i64) -> KvRequestView {
    KvRequestView::Cas {
        key: latest_key(key),
        from: offset_before(candidate),
        to: candidate,
        create: true,
    }
}

/// The call that an append of `msg` under `key` waits for at `step`.
pub open spec fn call_at(key: Seq<char>, msg: i64, step: SendStep) -> Option<KvCallView> {
    match step {
        SendStep::ReadLatest => Some(
            KvCallView {
                store: Store::Linearizable,
                request: KvRequestView::Read { key: latest_key(key) },
            },
        ),
        SendStep::Claim { candidate } => Some(
            KvCallView { store: Store::Linearizable, request: claim_request(key, candidate) },
        ),
        SendStep::StoreMessage { offset } => Some(
            KvCallView {
                store: Store::Sequential,
                request: KvRequestView::Write { key: entry_key(key, offset), value: msg },
            },
        ),
        SendStep::RefreshHint { offset } => Some(
            KvCallView {
                store: Store::Sequential,
                request: KvRequestView::Write { key: latest_key(key), value: offset },
            },
        ),
        SendStep::Done { .. } => None,
    }
}

/// One append in progress.
#[derive(Clone, Debug, PartialEq, Eq)]
pub struct SendOp {
    pub key: String,
    pub msg: i64,
    pub step: SendStep,
}

impl SendOp {
    /// Starts an append: the first call reads the latest-offset marker.
    pub fn new(key: String, msg: i64) -> (op: SendOp)
        ensures
            op.key == key,
            op.msg == msg,
            op.step == SendStep::ReadLatest,
    {
        SendOp { key, msg, step: SendStep::ReadLatest }
    }

    /// The call to make next, or `None` once the append is finished.
    pub fn pending(&self) -> (call: Option<KvCall>)
        ensures
            call.is_some() == call_at(self.key@, self.msg, self.step).is_some(),
            call matches Some(c) ==> Some(c@) == call_at(self.key@, self.msg, self.step),
    {
        match self.step {
            SendStep::ReadLatest => Some(
                KvCall {
                    store: Store::Linearizable,
                    request: KvRequest::Read { key: make_latest_key(&self.key) },
                },
            ),
            SendStep::Claim { candidate } => {
                let from: i64 = if candidate == i64::MIN {
                    i64::MAX
                } else {
                    candidate - 1
                };
                Some(
                    KvCall {
                        store: Store::Linearizable,
                        request: KvRequest::Cas {
                            key: make_latest_key(&self.key),
                            from,
                            to: candidate,
                            create: true,
                        },
                    },
                )
            },
            SendStep::StoreMessage { offset } => Some(
                KvCall {
                    store: Store::Sequential,
                    request: KvRequest::Write {
                        key: make_entry_key(&self.key, offset),
                        value: self.msg,
                    },
                },
            ),
            SendStep::RefreshHint { offset } => Some(
                KvCall {
                    store: Store::Sequential,
                    request: KvRequest::Write { key: make_latest_key(&self.key), value: offset },
                },
            ),
            SendStep::Done { .. } => None,
        }
    }

    /// Takes the outcome of the pending call and moves to the next step. A
    /// lost claim moves on to the next candidate; the outcomes of the two
    /// writes are not read.
    pub fn advance(&mut self, outcome: KvOutcome)
        ensures
            final(self).key == old(self).key,
            final(self).msg == old(self).msg,
            final(self).step == step_after(old(self).step, outcome),
    {
        let next = match self.step {
            SendStep::ReadLatest => {
                let candidate: i64 = match outcome {
                    KvOutcome::Value(v) => v,
                    _ => 0,
                };
                SendStep::Claim { candidate }
            },
            SendStep::Claim { candidate } => {
                match outcome {
                    KvOutcome::Swapped => SendStep::StoreMessage { offset: candidate },
                    _ => {
                        let following: i64 = if candidate == i64::MAX {
                            i64::MIN
                        } else {
                            candidate + 1
                        };
                        SendStep::Claim { candidate: following }
                    },
                }
            },
            SendStep::StoreMessage { offset } => SendStep::RefreshHint { offset },
            SendStep::RefreshHint { offset } => SendStep::Done { offset },
            SendStep::Done { offset } => SendStep::Done { offset },
        };
        self.step = next;
    }

    /// The allocated offset, once the append is finished.
    pub fn offset(&self) -> (offset: Option<i64>)
        ensures
            offset == (match self.step {
                SendStep::Done { offset } => Some(offset),
                _ => None,
            }),
    {
        match self.step {
            SendStep::Done { offset } => Some(offset),
            _ => None,
        }
    }
}

/// Views of a list of calls.
pub open spec fn calls_view(calls: Seq<KvCall>) -> Seq<KvCallView> {
    calls.map_values(|c: KvCall| c@)
}

/// How many offsets a poll from `from` reads: the full window, cut where
/// the offsets of `i64` end.
pub open spec fn window_len(from: i64) -> nat {
    if from <= i64::MAX - (WINDOW - 1) {
        WINDOW as nat
    } else {
        (i64::MAX - from + 1) as nat
    }
}

/// The read of the entry of `key` at distance `d` from `from`.
pub open spec fn window_read(key: Seq<char>, from: i64, d: int) -> KvCallView {
    KvCallView {
        store: Store::Sequential,
        request: KvRequestView::Read { key: entry_key(key, (from + d) as i64) },
    }
}

/// The reads that a poll of `key` from `from` makes, in order.
pub open spec fn window_reads(key: Seq<char>, from: i64) -> Seq<KvCallView> {
    Seq::new(window_len(from), |d: int| window_read(key, from, d))
}

/// The entries found in the first `n` slots of a window that starts at
/// `from`: slot `d` gives `(from + d, v)` where its outcome is the value
/// `v`, and nothing where it is anything else or missing.
pub open spec fn found(from: i64, outcomes: Seq<KvOutcome>, n: nat) -> Seq<(i64, i64)>
    decreases n,
{
    if n == 0 {
        Seq::empty()
    } else {
        let d = n - 1;
        let before = found(from, outcomes, d as nat);
        if d < outcomes.len() {
            match outcomes[d] {
                KvOutcome::Value(v) => before.push(((from + d) as i64, v)),
                _ => before,
            }
        } else {
            before
        }
    }
}

fn window_count(from: i64) -> (count: usize)
    ensures
        count == window_len(from),
        count <= 5,
{
    if from <= i64::MAX - (WINDOW - 1) {
        WINDOW as usize
    } else {
        (i64::MAX - from + 1) as usize
    }
}

/// The reads for one key of a poll.
pub fn poll_window(key: &String, from: i64) -> (calls: Vec<KvCall>)
    ensures
        calls_view(calls@) == window_reads(key@, from),
{
    let count: usize = window_count(from);
    let mut calls: Vec<KvCall> = Vec::new();
    let mut d: usize = 0;
    while d < count
        invariant
            d <= count,
            count == window_len(from),
            count <= 5,
            calls@.len() == d,
            forall|j: int| 0 <= j < d ==> (#[trigger] calls@[j])@ == window_read(key@, from, j),
        decreases count - d,
    {
        let at: i64 = from + (d as i64);
        let entry = make_entry_key(key, at);
        calls.push(KvCall { store: Store::Sequential, request: KvRequest::Read { key: entry } });
        d = d + 1;
    }
    proof {
        assert(calls_view(calls@) =~= window_reads(key@, from));
    }
    calls
}

/// The entries of one key of a poll, from the outcomes of its reads. An
/// absent entry is left out; it neither fails the poll nor leaves a gap
/// marker.
pub fn poll_found(from: i64, outcomes: &Vec<KvOutcome>) -> (entries: Vec<(i64, i64)>)
    ensures
        entries@ == found(from, outcomes@, window_len(from)),
{
    let count: usize = window_count(from);
    let mut entries: Vec<(i64, i64)> = Vec::new();
    let mut d: usize = 0;
    while d < count
        invariant
            d <= count,
            count == window_len(from),
            count <= 5,
            entries@ == found(from, outcomes@, d as nat),
        decreases count - d,
    {
        if d < outcomes.len() {
            match outcomes[d] {
                KvOutcome::Value(v) => {
                    let at: i64 = from + (d as i64);
                    entries.push((at, v));
                },
                _ => {},
            }
        }
        d = d + 1;
    }
    entries
}

/// The reads of a whole poll: one list per requested key, in the order of
/// the request.
pub fn poll_plan(offsets: &Vec<(String, i64)>) -> (plan: Vec<Vec<KvCall>>)
    ensures
        plan@.len() == offsets@.len(),
        forall|i: int|
            0 <= i < offsets@.len() ==> calls_view((#[trigger] plan@[i])@) == window_reads(
                offsets@[i].0@,
                offsets@[i].1,
            ),
{
    let mut plan: Vec<Vec<KvCall>> = Vec::new();
    let mut i: usize = 0;
    while i < offsets.len()
        invariant
            i <= offsets@.len(),
            plan@.len() == i,
            forall|j: int|
                0 <= j < i ==> calls_view((#[trigger] plan@[j])@) == window_reads(
                    offsets@[j].0@,
                    offsets@[j].1,
                ),
        decreases offsets@.len() - i,
    {
        let calls = poll_window(&offsets[i].0, offsets[i].1);
        plan.push(calls);
        i = i + 1;
    }
    plan
}

/// The outcomes that belong to key `i` of a poll; none where the list is
/// too short.
pub open spec fn outcomes_for(outcomes: Seq<Vec<KvOutcome>>, i: int) -> Seq<KvOutcome> {
    if 0 <= i < outcomes.len() {
        outcomes[i]@
    } else {
        Seq::empty()
    }
}

/// The result of a whole poll: for each requested key, in order, the
/// entries that its reads found.
pub fn poll_collect(offsets: &Vec<(String, i64)>, outcomes: &Vec<Vec<KvOutcome>>) -> (msgs: Vec<
    (String, Vec<(i64, i64)>),
>)
    ensures
        msgs@.len() == offsets@.len(),
        forall|i: int|
            0 <= i < offsets@.len() ==> (#[trigger] msgs@[i]).0 == offsets@[i].0 && msgs@[i].1@
                == found(offsets@[i].1, outcomes_for(outcomes@, i), window_len(offsets@[i].1)),
{
    let mut msgs: Vec<(String, Vec<(i64, i64)>)> = Vec::new();
    let mut i: usize = 0;
    while i < offsets.len()
        invariant
            i <= offsets@.len(),
            msgs@.len() == i,
            forall|j: int|
                0 <= j < i ==> (#[trigger] msgs@[j]).0 == offsets@[j].0 && msgs@[j].1@ == found(
                    offsets@[j].1,
                    outcomes_for(outcomes@, j),
                    window_len(offsets@[j].1),
                ),
        decreases offsets@.len() - i,
    {
        let from: i64 = offsets[i].1;
        let entries = if i < outcomes.len() {
            poll_found(from, &outcomes[i])
        } else {
            let none: Vec<KvOutcome> = Vec::new();
            poll_found(from, &none)
        };
        msgs.push((offsets[i].0.clone(), entries));
        i = i + 1;
    }
    msgs
}

/// The write that records `offset` as committed for `key`.
pub open spec fn commit_write(key: Seq<char>, offset: i64) -> KvCallView {
    KvCallView {
        store: Store::Sequential,
        request: KvRequestView::Write { key: committed_key(key), value: offset },
    }
}

/// The read of the committed offset of `key`.
pub open spec fn committed_read(key: Seq<char>) -> KvCallView {
    KvCallView {
        store: Store::Sequential,
        request: KvRequestView::Read { key: committed_key(key) },
    }
}

/// The writes of a commit: one per key, in order. Each overwrites the
/// marker whatever it held; their outcomes are not read.
pub fn commit_plan(offsets: &Vec<(String, i64)>) -> (plan: Vec<KvCall>)
    ensures
        plan@.len() == offsets@.len(),
        forall|i: int|
            0 <= i < offsets@.len() ==> (#[trigger] plan@[i])@ == commit_write(
                offsets@[i].0@,
                offsets@[i].1,
            ),
{
    let mut plan: Vec<KvCall> = Vec::new();
    let mut i: usize = 0;
    while i < offsets.len()
        invariant
            i <= offsets@.len(),
            plan@.len() == i,
            forall|j: int|
                0 <= j < i ==> (#[trigger] plan@[j])@ == commit_write(
                    offsets@[j].0@,
                    offsets@[j].1,
                ),
        decreases offsets@.len() - i,
    {
        let marker = make_committed_key(&offsets[i].0);
        plan.push(
            KvCall {
                store: Store::Sequential,
                request: KvRequest::Write { key: marker, value: offsets[i].1 },
            },
        );
        i = i + 1;
    }
    plan
}

/// The reads that list the committed offsets of `keys`, in order.
pub fn list_plan(keys: &Vec<String>) -> (plan: Vec<KvCall>)
    ensures
        plan@.len() == keys@.len(),
        forall|i: int| 0 <= i < keys@.len() ==> (#[trigger] plan@[i])@ == committed_read(keys@[i]@),
{
    let mut plan: Vec<KvCall> = Vec::new();
    let mut i: usize = 0;
    while i < keys.len()
        invariant
            i <= keys@.len(),
            plan@.len() == i,
            forall|j: int| 0 <= j < i ==> (#[trigger] plan@[j])@ == committed_read(keys@[j]@),
        decreases keys@.len() - i,
    {
        let marker = make_committed_key(&keys[i]);
        plan.push(KvCall { store: Store::Sequential, request: KvRequest::Read { key: marker } });
        i = i + 1;
    }
    plan
}

/// The committed offset that an outcome stands for: the value read, or 0
/// where the marker is absent or the read failed.
pub open spec fn committed_value(outcome: KvOutcome) -> i64 {
    match outcome {
        KvOutcome::Value(v) => v,
        _ => 0,
    }
}

/// The outcome at position `i`, or `Failed` where the list is too short.
pub open spec fn outcome_at(outcomes: Seq<KvOutcome>, i: int) -> KvOutcome {
    if 0 <= i < outcomes.len() {
        outcomes[i]
    } else {
        KvOutcome::Failed
    }
}

/// The committed offsets of `keys`, from the outcomes of their reads.
/// Every key gets an answer: a missing marker counts as 0.
pub fn list_collect(keys: &Vec<String>, outcomes: &Vec<KvOutcome>) -> (offsets: Vec<(String, i64)>)
    ensures
        offsets@.len() == keys@.len(),
        forall|i: int|
            0 <= i < keys@.len() ==> (#[trigger] offsets@[i]).0 == keys@[i] && offsets@[i].1
                == committed_value(outcome_at(outcomes@, i)),
{
    let mut offsets: Vec<(String, i64)> = Vec::new();
    let mut i: usize = 0;
    while i < keys.len()
        invariant
            i <= keys@.len(),
            offsets@.len() == i,
            forall|j: int|
                0 <= j < i ==> (#[trigger] offsets@[j]).0 == keys@[j] && offsets@[j].1
                    == committed_value(outcome_at(outcomes@, j)),
        decreases keys@.len() - i,
    {
        let value: i64 = if i < outcomes.len() {
            match outcomes[i] {
                KvOutcome::Value(v) => v,
                _ => 0,
            }
        } else {
            0
        };
        offsets.push((keys[i].clone(), value));
        i = i + 1;
    }
    offsets
}

} // verus!

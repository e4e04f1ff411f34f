use vstd::prelude::*;
use vstd::string::*;
use crate::decimal::{decimal_text, push_decimal, suffix_is_told, texts_tell_offsets_apart};

verus! {

/// The two backing key-value services.
#[derive(Clone, Copy, Debug, PartialEq, Eq, Structural)]
pub enum Store {
    /// Strict compare-and-swap semantics; used to allocate offsets.
    Linearizable,
    /// Total-order consistency; holds the entries and the markers.
    Sequential,
}

/// One operation against a key-value service.
#[derive(Clone, Debug, PartialEq, Eq)]
pub enum KvRequest {
    Read { key: String },
    Write { key: String, value: i64 },
    Cas { key: String, from: i64, to: i64, create: bool },
}

/// A `KvRequest` with its keys as sequences of characters.
pub enum KvRequestView {
    Read { key: Seq<char> },
    Write { key: Seq<char>, value: i64 },
    Cas { key: Seq<char>, from: i64, to: i64, create: bool },
}

impl View for KvRequest {
    type V = KvRequestView;

    open spec fn view(&self) -> KvRequestView {
        match *self {
            KvRequest::Read { key } => KvRequestView::Read { key: key@ },
            KvRequest::Write { key, value } => KvRequestView::Write { key: key@, value },
            KvRequest::Cas { key, from, to, create } => KvRequestView::Cas {
                key: key@,
                from,
                to,
                create,
            },
        }
    }
}

/// A request together with the service it is meant for.
#[derive(Clone, Debug, PartialEq, Eq)]
pub struct KvCall {
    pub store: Store,
    pub request: KvRequest,
}

/// A `KvCall` with its keys as sequences of characters.
pub struct KvCallView {
    pub store: Store,
    pub request: KvRequestView,
}

impl View for KvCall {
    type V = KvCallView;

    open spec fn view(&self) -> KvCallView {
        KvCallView { store: self.store, request: self.request@ }
    }
}

/// What came back from one call, as far as the log protocol reads it.
#[derive(Clone, Copy, Debug, PartialEq, Eq, Structural)]
pub enum KvOutcome {
    /// A read found this value.
    Value(i64),
    /// A write was acknowledged.
    Written,
    /// A compare-and-swap took effect.
    Swapped,
    /// Anything else: the key is absent, the swap lost, the call failed.
    Failed,
}

/// Contents of one key-value service.
pub type KvState = Map<Seq<char>, i64>;

/// The contract of a key-value service: the state after `request` and the
/// outcome that the caller sees.
pub open spec fn kv_apply(state: KvState, request: KvRequestView) -> (KvState, KvOutcome) {
    match request {
        KvRequestView::Read { key } => if state.contains_key(key) {
            (state, KvOutcome::Value(state[key]))
        } else {
            (state, KvOutcome::Failed)
        },
        KvRequestView::Write { key, value } => (state.insert(key, value), KvOutcome::Written),
        KvRequestView::Cas { key, from, to, create } => if state.contains_key(key) {
            if state[key] == from {
                (state.insert(key, to), KvOutcome::Swapped)
            } else {
                (state, KvOutcome::Failed)
            }
        } else if create {
            (state.insert(key, to), KvOutcome::Swapped)
        } else {
            (state, KvOutcome::Failed)
        },
    }
}

/// Key of the marker that holds the highest allocated offset of `key`.
pub open spec fn latest_key(key: Seq<char>) -> Seq<char> {
    "latest:"@ + key
}

/// Key of the marker that holds the committed offset of `key`.
pub open spec fn committed_key(key: Seq<char>) -> Seq<char> {
    "committed:"@ + key
}

/// Key under which the entry of `key` at `offset` is stored.
pub open spec fn entry_key(key: Seq<char>, offset: i64) -> Seq<char> {
    key + ":"@ + decimal_text(offset)
}

/// Builds the key of the latest-offset marker of `key`.
pub fn make_latest_key(key: &String) -> (s: String)
    ensures
        s@ == latest_key(key@),
{
    let mut s = String::from_str("latest:");
    s.append(key.as_str());
    s
}

/// Builds the key of the committed-offset marker of `key`.
pub fn make_committed_key(key: &String) -> (s: String)
    ensures
        s@ == committed_key(key@),
{
    let mut s = String::from_str("committed:");
    s.append(key.as_str());
    s
}

/// Builds the key of the entry of `key` at `offset`.
pub fn make_entry_key(key: &String, offset: i64) -> (s: String)
    ensures
        s@ == entry_key(key@, offset),
{
    let mut s = key.clone();
    s.append(":");
    push_decimal(&mut s, offset);
    s
}

/// The entries of one key have different keys at different offsets.
pub proof fn entry_keys_differ(key: Seq<char>, a: i64, b: i64)
    requires
        entry_key(key, a) == entry_key(key, b),
    ensures
        a == b,
{
    suffix_is_told(key + ":"@, decimal_text(a), decimal_text(b));
    texts_tell_offsets_apart(a, b);
}

impl Store {
    /// The node name under which the service is addressed.
    pub fn address(&self) -> (s: String)
        ensures
            s@ == (match *self {
                Store::Linearizable => "lin-kv"@,
                Store::Sequential => "seq-kv"@,
            }),
    {
        match self {
            Store::Linearizable => String::from_str("lin-kv"),
            Store::Sequential => String::from_str("seq-kv"),
        }
    }
}

} // verus!

use vstd::prelude::*;
use crate::broadcast::{
    gossip_for, handled, is_gossip_to, neighbors_known, round_sent, silent, BroadcastError,
    BroadcastPayload, NodeState, Trigger,
};
use crate::message::{Event, Message};

verus! {

/// Whether `late` knows and believes at least what `early` does.
pub open spec fn grown(early: NodeState, late: NodeState) -> bool {
    &&& late.node == early.node
    &&& early.msgs.subset_of(late.msgs)
    &&& forall|n: Seq<char>| #[trigger]
        early.believed.contains_key(n) ==> late.believed.contains_key(n)
            && early.believed[n].subset_of(late.believed[n])
}

/// Handling an event never forgets anything: the values seen stay seen,
/// and what a node was believed to know it is still believed to know.
pub proof fn state_only_grows(
    pre: NodeState,
    event: Event<BroadcastPayload, Trigger>,
    post: NodeState,
    r: Result<Vec<Message<BroadcastPayload>>, BroadcastError>,
)
    requires
        handled(pre, event, post, r),
    ensures
        grown(pre, post),
{
}

/// The values that an event brings to a node: the value of a broadcast,
/// the values of gossip, and nothing for anything else.
pub open spec fn brought(event: Event<BroadcastPayload, Trigger>) -> Set<usize> {
    match event {
        Event::Message(m) => match m.body.payload {
            BroadcastPayload::Broadcast { msg } => Set::<usize>::empty().insert(msg),
            BroadcastPayload::Gossip { seen } => seen@,
            _ => Set::<usize>::empty(),
        },
        _ => Set::<usize>::empty(),
    }
}

/// What a node has seen after an event is what it had seen before and what
/// the event brought: nothing is lost, also where the event is refused, and
/// nothing else appears.
pub proof fn handle_adds_what_the_event_brings(
    pre: NodeState,
    event: Event<BroadcastPayload, Trigger>,
    post: NodeState,
    r: Result<Vec<Message<BroadcastPayload>>, BroadcastError>,
)
    requires
        handled(pre, event, post, r),
    ensures
        pre.msgs.subset_of(post.msgs),
        post.msgs.subset_of(pre.msgs.union(brought(event))),
        r is Ok ==> post.msgs == pre.msgs.union(brought(event)),
{
    if r is Ok {
        assert(post.msgs =~= pre.msgs.union(brought(event)));
    }
}

/// A round of gossip at a node whose neighbors are all nodes of the
/// cluster succeeds, changes nothing, and sends each neighbor one message,
/// empty or not, that holds no value believed known to that neighbor.
pub proof fn round_sends_only_the_unknown(
    s: NodeState,
    post: NodeState,
    r: Result<Vec<Message<BroadcastPayload>>, BroadcastError>,
    i: int,
    v: usize,
)
    requires
        handled(s, Event::Injected(Trigger::Gossip), post, r),
        neighbors_known(s),
        0 <= i < s.neighbors.len(),
        s.believed[s.neighbors[i]].contains(v),
    ensures
        post == s,
        r matches Ok(out) && out@.len() == s.neighbors.len() && is_gossip_to(
            out@[i],
            s,
            s.neighbors[i],
        ) && (out@[i].body.payload matches BroadcastPayload::Gossip { seen } && !seen@.contains(v)),
{
    assert(round_sent(s, r));
    let out = r->Ok_0;
    assert(is_gossip_to(out@[i], s, s.neighbors[i]));
}

/// Whether `states` is what a node goes through while it handles `events`
/// one after the other, with `results` as what it returned.
pub open spec fn is_run(
    states: Seq<NodeState>,
    events: Seq<Event<BroadcastPayload, Trigger>>,
    results: Seq<Result<Vec<Message<BroadcastPayload>>, BroadcastError>>,
) -> bool {
    &&& states.len() == events.len() + 1
    &&& results.len() == events.len()
    &&& forall|k: int|
        0 <= k < events.len() ==> handled(
            #[trigger] states[k],
            events[k],
            states[k + 1],
            results[k],
        )
}

/// Over any run a node only grows.
pub proof fn run_only_grows(
    states: Seq<NodeState>,
    events: Seq<Event<BroadcastPayload, Trigger>>,
    results: Seq<Result<Vec<Message<BroadcastPayload>>, BroadcastError>>,
    k: int,
)
    requires
        is_run(states, events, results),
        0 <= k < states.len(),
    ensures
        grown(states[0], states[k]),
    decreases k,
{
    if k > 0 {
        run_only_grows(states, events, results, k - 1);
        state_only_grows(states[k - 1], events[k - 1], states[k], results[k - 1]);
    }
}

/// A value that a neighbor is believed to know is not sent to it again:
/// once `v` is among the values believed known to `neighbor`, no later
/// round of gossip has `v` in what it sends there.
pub proof fn known_value_is_not_sent_again(
    states: Seq<NodeState>,
    events: Seq<Event<BroadcastPayload, Trigger>>,
    results: Seq<Result<Vec<Message<BroadcastPayload>>, BroadcastError>>,
    neighbor: Seq<char>,
    v: usize,
    k: int,
    i: int,
)
    requires
        is_run(states, events, results),
        states[0].believed.contains_key(neighbor),
        states[0].believed[neighbor].contains(v),
        0 <= k < events.len(),
        events[k] is Injected,
        0 <= i < states[k].neighbors.len(),
        states[k].neighbors[i] == neighbor,
    ensures
        !gossip_for(states[k], neighbor).contains(v),
        results[k] matches Ok(out) ==> (out@[i].body.payload matches BroadcastPayload::Gossip {
            seen,
        } && !seen@.contains(v)),
{
    run_only_grows(states, events, results, k);
    assert(handled(states[k], events[k], states[k + 1], results[k]));
    assert(round_sent(states[k], results[k]));
    if results[k] is Ok {
        let out = results[k]->Ok_0;
        assert(is_gossip_to(out@[i], states[k], states[k].neighbors[i]));
    }
}

/// One hop of dissemination. When `sender` gossips to `receiver` and what
/// it believes of the receiver is true, the receiver afterwards has seen
/// everything the sender had, has lost nothing of its own, and has seen
/// nothing that neither of the two had seen before.
pub proof fn gossip_carries_over(
    sender: NodeState,
    m: Message<BroadcastPayload>,
    receiver: NodeState,
    post: NodeState,
    r: Result<Vec<Message<BroadcastPayload>>, BroadcastError>,
)
    requires
        is_gossip_to(m, sender, receiver.node),
        receiver.believed.contains_key(sender.node),
        sender.believed[receiver.node].subset_of(receiver.msgs),
        handled(receiver, Event::Message(m), post, r),
    ensures
        silent(r),
        sender.msgs.subset_of(post.msgs),
        receiver.msgs.subset_of(post.msgs),
        post.msgs == receiver.msgs.union(sender.msgs),
        sender.msgs.subset_of(post.believed[sender.node].union(sender.believed[receiver.node])),
{
    assert(post.msgs =~= receiver.msgs.union(sender.msgs));
}

/// What a node believes of a peer stays true. If everything that
/// `receiver` believes `sender` to know is among the values that the sender
/// has seen, and the gossip that arrives holds only values that the sender
/// has seen, then the same is true after the gossip was taken in.
pub proof fn belief_stays_sound(
    sender_msgs: Set<usize>,
    m: Message<BroadcastPayload>,
    receiver: NodeState,
    post: NodeState,
    r: Result<Vec<Message<BroadcastPayload>>, BroadcastError>,
)
    requires
        receiver.believed.contains_key(m.src@),
        receiver.believed[m.src@].subset_of(sender_msgs),
        m.body.payload matches BroadcastPayload::Gossip { seen } && seen@.subset_of(sender_msgs),
        handled(receiver, Event::Message(m), post, r),
    ensures
        post.believed.contains_key(m.src@),
        post.believed[m.src@].subset_of(sender_msgs),
        forall|n: Seq<char>|
            n != m.src@ && receiver.believed.contains_key(n) ==> #[trigger] post.believed[n]
                == receiver.believed[n],
{
}

/// Delivering a broadcast a second time changes nothing that the first
/// delivery had not changed, but for the identifier that the reply uses up.
pub proof fn broadcast_is_idempotent(
    pre: NodeState,
    first: Message<BroadcastPayload>,
    mid: NodeState,
    r1: Result<Vec<Message<BroadcastPayload>>, BroadcastError>,
    second: Message<BroadcastPayload>,
    post: NodeState,
    r2: Result<Vec<Message<BroadcastPayload>>, BroadcastError>,
)
    requires
        first.body.payload matches BroadcastPayload::Broadcast { msg: a }
            && second.body.payload matches BroadcastPayload::Broadcast { msg: b } && a == b,
        handled(pre, Event::Message(first), mid, r1),
        handled(mid, Event::Message(second), post, r2),
    ensures
        post.msgs == mid.msgs,
        post.neighbors == mid.neighbors,
        post.believed == mid.believed,
{
    assert(post.msgs =~= mid.msgs);
}

} // verus!

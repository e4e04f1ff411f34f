use vstd::prelude::*;
use crate::message::{id_after, Body, Event, IdCounter, Message};
use crate::values::ValueSet;

verus! {

/// Payloads of the broadcast protocol.
#[derive(Clone, Debug)]
pub enum BroadcastPayload {
    Broadcast { msg: usize },
    BroadcastOk,
    Read,
    ReadOk { msgs: ValueSet },
    Topology { topo: Vec<(String, Vec<String>)> },
    TopologyOk,
    Gossip { seen: ValueSet },
}

/// Triggers that the node produces for itself.
#[derive(Clone, Copy, Debug, PartialEq, Eq, Structural)]
pub enum Trigger {
    /// Time for a round of gossip.
    Gossip,
}

/// A violation of the protocol that stops the node.
#[derive(Clone, Debug, PartialEq, Eq)]
pub enum BroadcastError {
    /// Gossip came from, or is due to, a node that is not in the cluster.
    UnknownPeer { name: String },
    /// The topology has no entry for this node.
    MissingFromTopology,
}

/// The names of a list of nodes.
pub open spec fn names(nodes: Seq<String>) -> Seq<Seq<char>> {
    nodes.map_values(|s: String| s@)
}

/// What a broadcast node knows.
pub struct NodeState {
    /// This node's name.
    pub node: Seq<char>,
    /// The values seen so far.
    pub msgs: Set<usize>,
    /// The nodes that gossip is sent to.
    pub neighbors: Seq<Seq<char>>,
    /// For each node of the cluster, the values it is believed to know.
    pub believed: Map<Seq<char>, Set<usize>>,
    /// The identifier of the next reply.
    pub next_id: u64,
}

pub struct BroadcastNode {
    node: String,
    msgs: ValueSet,
    neighbors: Vec<String>,
    peers: Vec<String>,
    known: Vec<ValueSet>,
    ids: IdCounter,
}

/// Whether the topology has an entry for `node`.
pub open spec fn listed(topo: Seq<(String, Vec<String>)>, node: Seq<char>) -> bool {
    exists|i: int| 0 <= i < topo.len() && (#[trigger] topo[i]).0@ == node
}

/// Whether entry `i` is the first entry of the topology for `node`.
pub open spec fn is_first_listing(topo: Seq<(String, Vec<String>)>, node: Seq<char>, i: int) -> bool {
    &&& 0 <= i < topo.len()
    &&& topo[i].0@ == node
    &&& forall|j: int| 0 <= j < i ==> (#[trigger] topo[j]).0@ != node
}

/// The neighbors that the topology gives `node`: those of its first entry.
pub open spec fn listed_neighbors(topo: Seq<(String, Vec<String>)>, node: Seq<char>) -> Seq<
    Seq<char>,
> {
    names(topo[choose|i: int| is_first_listing(topo, node, i)].1@)
}

/// The gossip that a node in state `s` sends to `neighbor`: what it has
/// seen and does not believe the neighbor to know.
pub open spec fn gossip_for(s: NodeState, neighbor: Seq<char>) -> Set<usize> {
    s.msgs.difference(s.believed[neighbor])
}

/// Whether `m` is the gossip message that a node in state `s` sends to
/// `neighbor`.
pub open spec fn is_gossip_to(m: Message<BroadcastPayload>, s: NodeState, neighbor: Seq<char>) -> bool {
    &&& m.src@ == s.node
    &&& m.dest@ == neighbor
    &&& m.body.id.is_none()
    &&& m.body.in_reply_to.is_none()
    &&& m.body.payload matches BroadcastPayload::Gossip { seen }
    &&& seen.wf()
    &&& seen@ == gossip_for(s, neighbor)
}

/// Whether every neighbor is a node of the cluster.
pub open spec fn neighbors_known(s: NodeState) -> bool {
    forall|i: int| 0 <= i < s.neighbors.len() ==> s.believed.contains_key(#[trigger] s.neighbors[i])
}

/// Whether `reply` answers `request` with identifier `id`.
pub open spec fn answers(
    reply: Message<BroadcastPayload>,
    request: Message<BroadcastPayload>,
    id: u64,
) -> bool {
    &&& reply.src == request.dest
    &&& reply.dest == request.src
    &&& reply.body.id == Some(id)
    &&& reply.body.in_reply_to == request.body.id
}

/// The state after gossip `seen` from `sender` was taken in.
pub open spec fn after_gossip(s: NodeState, sender: Seq<char>, seen: Set<usize>) -> NodeState {
    NodeState {
        msgs: s.msgs.union(seen),
        believed: s.believed.insert(sender, s.believed[sender].union(seen)),
        ..s
    }
}

/// What a round of gossip gives in state `s`: one message per neighbor, in
/// the order of the neighbor list, sent whether or not there is anything
/// new in it; or, where a neighbor is not a node of the cluster, the name
/// of the first such neighbor.
pub open spec fn round_sent(
    s: NodeState,
    r: Result<Vec<Message<BroadcastPayload>>, BroadcastError>,
) -> bool {
    if neighbors_known(s) {
        &&& r matches Ok(out)
        &&& out@.len() == s.neighbors.len()
        &&& forall|i: int|
            0 <= i < s.neighbors.len() ==> is_gossip_to(#[trigger] out@[i], s, s.neighbors[i])
    } else {
        &&& r matches Err(BroadcastError::UnknownPeer { name })
        &&& exists|i: int|
            0 <= i < s.neighbors.len() && #[trigger] s.neighbors[i] == name@
                && !s.believed.contains_key(name@) && forall|j: int|
                0 <= j < i ==> s.believed.contains_key(#[trigger] s.neighbors[j])
    }
}

/// Whether `r` is the single reply to `request`, with identifier `id`.
pub open spec fn replied(
    r: Result<Vec<Message<BroadcastPayload>>, BroadcastError>,
    request: Message<BroadcastPayload>,
    id: u64,
) -> bool {
    &&& r matches Ok(out)
    &&& out@.len() == 1
    &&& answers(out@[0], request, id)
}

/// Whether `r` is success with nothing to send.
pub open spec fn silent(r: Result<Vec<Message<BroadcastPayload>>, BroadcastError>) -> bool {
    &&& r matches Ok(out)
    &&& out@.len() == 0
}

/// What handling `event` in state `pre` does: the state `post` that it
/// leaves and the messages or the error `r` that it gives.
pub open spec fn handled(
    pre: NodeState,
    event: Event<BroadcastPayload, Trigger>,
    post: NodeState,
    r: Result<Vec<Message<BroadcastPayload>>, BroadcastError>,
) -> bool {
    match event {
        Event::Eof => post == pre && silent(r),
        Event::Injected(_) => post == pre && round_sent(pre, r),
        Event::Message(m) => {
            let at = NodeState { next_id: id_after(pre.next_id), ..pre };
            match m.body.payload {
                BroadcastPayload::Gossip { seen } => if pre.believed.contains_key(m.src@) {
                    post == after_gossip(at, m.src@, seen@) && silent(r)
                } else {
                    &&& post == at
                    &&& r matches Err(BroadcastError::UnknownPeer { name })
                    &&& name@ == m.src@
                },
                BroadcastPayload::Broadcast { msg } => {
                    &&& post == NodeState { msgs: at.msgs.insert(msg), ..at }
                    &&& replied(r, m, pre.next_id)
                    &&& r->Ok_0@[0].body.payload is BroadcastOk
                },
                BroadcastPayload::Read => {
                    &&& post == at
                    &&& replied(r, m, pre.next_id)
                    &&& r->Ok_0@[0].body.payload matches BroadcastPayload::ReadOk { msgs }
                    &&& msgs.wf()
                    &&& msgs@ == pre.msgs
                },
                BroadcastPayload::Topology { topo } => if listed(topo@, pre.node) {
                    &&& post == NodeState { neighbors: listed_neighbors(topo@, pre.node), ..at }
                    &&& replied(r, m, pre.next_id)
                    &&& r->Ok_0@[0].body.payload is TopologyOk
                } else {
                    &&& post == at
                    &&& r matches Err(e)
                    &&& e is MissingFromTopology
                },
                _ => post == at && silent(r),
            }
        },
    }
}

spec fn has_name(peers: Seq<String>, name: Seq<char>) -> bool {
    exists|i: int| 0 <= i < peers.len() && (#[trigger] peers[i])@ == name
}

spec fn index_of_name(peers: Seq<String>, name: Seq<char>) -> int {
    choose|i: int| 0 <= i < peers.len() && (#[trigger] peers[i])@ == name
}

impl View for BroadcastNode {
    type V = NodeState;

    closed spec fn view(&self) -> NodeState {
        NodeState {
            node: self.node@,
            msgs: self.msgs@,
            neighbors: names(self.neighbors@),
            believed: Map::new(|n: Seq<char>| self.is_peer(n), |n: Seq<char>| self.known_to(n)),
            next_id: self.ids.next,
        }
    }
}

impl BroadcastNode {
    /// The lists of the node are consistent: one set of believed-known
    /// values per node of the cluster, no node twice, no value twice.
    pub closed spec fn wf(&self) -> bool {
        &&& self.msgs.wf()
        &&& self.peers@.len() == self.known@.len()
        &&& forall|i: int| 0 <= i < self.known@.len() ==> (#[trigger] self.known@[i]).wf()
        &&& forall|i: int, j: int|
            0 <= i < self.peers@.len() && 0 <= j < self.peers@.len() && i != j ==> (
            #[trigger] self.peers@[i])@ != (#[trigger] self.peers@[j])@
    }

    spec fn is_peer(&self, name: Seq<char>) -> bool {
        has_name(self.peers@, name)
    }

    spec fn peer_at(&self, name: Seq<char>) -> int {
        index_of_name(self.peers@, name)
    }

    spec fn known_to(&self, name: Seq<char>) -> Set<usize> {
        self.known@[self.peer_at(name)]@
    }

    proof fn lemma_peer(&self, i: int)
        requires
            self.wf(),
            0 <= i < self.peers@.len(),
        ensures
            self.is_peer(self.peers@[i]@),
            self.peer_at(self.peers@[i]@) == i,
            self@.believed.contains_key(self.peers@[i]@),
            self@.believed[self.peers@[i]@] == self.known@[i]@,
    {
        let name = self.peers@[i]@;
        assert(self.is_peer(name));
        let j = self.peer_at(name);
        assert(0 <= j < self.peers@.len() && self.peers@[j]@ == name);
        assert(j == i);
    }

    fn find_peer(&self, name: &String) -> (at: Option<usize>)
        requires
            self.wf(),
        ensures
            match at {
                Some(i) => i < self.peers@.len() && self.peers@[i as int]@ == name@
                    && self@.believed.contains_key(name@) && self@.believed[name@]
                    == self.known@[i as int]@,
                None => !self@.believed.contains_key(name@),
            },
    {
        let mut i: usize = 0;
        while i < self.peers.len()
            invariant
                self.wf(),
                i <= self.peers@.len(),
                forall|j: int| 0 <= j < i ==> (#[trigger] self.peers@[j])@ != name@,
            decreases self.peers@.len() - i,
        {
            if self.peers[i] == *name {
                proof {
                    self.lemma_peer(i as int);
                }
                return Some(i);
            }
            i = i + 1;
        }
        None
    }

    /// The node as it is after the handshake: it has seen nothing, has no
    /// neighbors yet, believes nothing of any node of the cluster, and its
    /// first reply will carry the identifier 1.
    pub fn from_init(node_id: String, node_ids: Vec<String>) -> (node: BroadcastNode)
        ensures
            node.wf(),
            node@.node == node_id@,
            node@.msgs == Set::<usize>::empty(),
            node@.neighbors == Seq::<Seq<char>>::empty(),
            node@.next_id == 1,
            forall|name: Seq<char>| #[trigger]
                node@.believed.contains_key(name) <==> names(node_ids@).contains(name),
            forall|name: Seq<char>| #[trigger]
                node@.believed.contains_key(name) ==> node@.believed[name] == Set::<usize>::empty(),
    {
        let mut node = BroadcastNode {
            node: node_id,
            msgs: ValueSet::new(),
            neighbors: Vec::new(),
            peers: Vec::new(),
            known: Vec::new(),
            ids: IdCounter::new(),
        };
        assert(node@.neighbors =~= Seq::<Seq<char>>::empty());
        let mut i: usize = 0;
        while i < node_ids.len()
            invariant
                i <= node_ids@.len(),
                node.wf(),
                node@.node == node_id@,
                node@.msgs == Set::<usize>::empty(),
                node@.neighbors == Seq::<Seq<char>>::empty(),
                node@.next_id == 1,
                forall|name: Seq<char>| #[trigger]
                    node.is_peer(name) <==> names(node_ids@.take(i as int)).contains(name),
                forall|k: int| 0 <= k < node.known@.len() ==> (#[trigger] node.known@[k])@
                    == Set::<usize>::empty(),
            decreases node_ids@.len() - i,
        {
            let ghost before = node;
            let ghost seen_names = names(node_ids@.take(i as int));
            let ghost added = node_ids@[i as int]@;
            proof {
                assert(names(node_ids@.take(i + 1)) =~= seen_names.push(added));
            }
            let at = node.find_peer(&node_ids[i]);
            if at.is_none() {
                node.peers.push(node_ids[i].clone());
                node.known.push(ValueSet::new());
                proof {
                    assert(node.peers@[before.peers@.len() as int]@ == added);
                    assert forall|name: Seq<char>| #[trigger]
                        node.is_peer(name) <==> seen_names.push(added).contains(name) by {
                        if node.is_peer(name) {
                            let k = node.peer_at(name);
                            if k < before.peers@.len() {
                                assert(before.peers@[k]@ == name);
                                assert(before.is_peer(name));
                                let w = choose|w: int|
                                    0 <= w < seen_names.len() && seen_names[w] == name;
                                assert(seen_names.push(added)[w] == name);
                            } else {
                                assert(seen_names.push(added)[seen_names.len() as int] == name);
                            }
                        }
                        if seen_names.push(added).contains(name) {
                            let w = choose|w: int|
                                0 <= w < seen_names.push(added).len() && seen_names.push(added)[w]
                                    == name;
                            if w < seen_names.len() {
                                assert(seen_names[w] == name);
                                assert(before.is_peer(name));
                                let k = before.peer_at(name);
                                assert(node.peers@[k]@ == name);
                            } else {
                                assert(node.peers@[before.peers@.len() as int]@ == name);
                            }
                        }
                    }
                    assert(node@.neighbors =~= Seq::<Seq<char>>::empty());
                }
            } else {
                proof {
                    assert(node.is_peer(added));
                    assert forall|name: Seq<char>| #[trigger]
                        node.is_peer(name) <==> seen_names.push(added).contains(name) by {
                        if node.is_peer(name) {
                            let w = choose|w: int|
                                0 <= w < seen_names.len() && seen_names[w] == name;
                            assert(seen_names.push(added)[w] == name);
                        }
                        if seen_names.push(added).contains(name) {
                            let w = choose|w: int|
                                0 <= w < seen_names.push(added).len() && seen_names.push(added)[w]
                                    == name;
                            if w < seen_names.len() {
                                assert(seen_names[w] == name);
                            }
                        }
                    }
                }
            }
            i = i + 1;
        }
        proof {
            assert(node_ids@.take(i as int) =~= node_ids@);
        }
        node
    }

    fn take_gossip(&mut self, sender: &String, seen: &ValueSet) -> (r: Result<(), BroadcastError>)
        requires
            old(self).wf(),
        ensures
            final(self).wf(),
            match r {
                Ok(()) => old(self)@.believed.contains_key(sender@) && final(self)@ == after_gossip(
                    old(self)@,
                    sender@,
                    seen@,
                ),
                Err(e) => {
                    &&& !old(self)@.believed.contains_key(sender@)
                    &&& final(self)@ == old(self)@
                    &&& e matches BroadcastError::UnknownPeer { name }
                    &&& name@ == sender@
                },
            },
    {
        match self.find_peer(sender) {
            Some(i) => {
                let ghost before = *self;
                let mut believed = self.known[i].snapshot();
                believed.extend(seen);
                self.known.set(i, believed);
                self.msgs.extend(seen);
                proof {
                    before.lemma_peer(i as int);
                    assert forall|n: Seq<char>| self.is_peer(n) == before.is_peer(n) by {}
                    assert forall|n: Seq<char>| #[trigger] self.is_peer(n) implies self.known_to(n)
                        == after_gossip(before@, sender@, seen@).believed[n] by {
                        let j = before.peer_at(n);
                        assert(self.peer_at(n) == j);
                        if n == sender@ {
                            assert(j == i);
                        } else {
                            assert(before.peers@[j]@ == n);
                            assert(j != i);
                        }
                    }
                    assert(self@.believed =~= after_gossip(before@, sender@, seen@).believed);
                }
                Ok(())
            },
            None => Err(BroadcastError::UnknownPeer { name: sender.clone() }),
        }
    }

    fn take_topology(&mut self, topo: &Vec<(String, Vec<String>)>) -> (found: bool)
        requires
            old(self).wf(),
        ensures
            final(self).wf(),
            found == listed(topo@, old(self)@.node),
            found ==> final(self)@ == (NodeState {
                neighbors: listed_neighbors(topo@, old(self)@.node),
                ..old(self)@
            }),
            !found ==> final(self)@ == old(self)@,
    {
        let mut i: usize = 0;
        while i < topo.len()
            invariant
                i <= topo@.len(),
                self.wf(),
                *self == *old(self),
                forall|j: int| 0 <= j < i ==> (#[trigger] topo@[j]).0@ != self.node@,
            decreases topo@.len() - i,
        {
            if topo[i].0 == self.node {
                let ghost before = *self;
                let mut neighbors: Vec<String> = Vec::new();
                let mut k: usize = 0;
                while k < topo[i].1.len()
                    invariant
                        i < topo@.len(),
                        k <= topo@[i as int].1@.len(),
                        neighbors@.len() == k,
                        forall|j: int| 0 <= j < k ==> neighbors@[j]@ == topo@[i as int].1@[j]@,
                    decreases topo@[i as int].1@.len() - k,
                {
                    neighbors.push(topo[i].1[k].clone());
                    k = k + 1;
                }
                self.neighbors = neighbors;
                proof {
                    assert(is_first_listing(topo@, before.node@, i as int));
                    let c = choose|c: int| is_first_listing(topo@, before.node@, c);
                    assert(c == i);
                    assert(names(self.neighbors@) =~= names(topo@[i as int].1@));
                    assert forall|n: Seq<char>| self.is_peer(n) == before.is_peer(n) by {}
                    assert forall|n: Seq<char>| self.known_to(n) == before.known_to(n) by {
                        assert(self.peer_at(n) == before.peer_at(n));
                    }
                    assert(self@.believed =~= before@.believed);
                }
                return true;
            }
            i = i + 1;
        }
        false
    }

    /// One round of gossip: to every neighbor, in order, what this node has
    /// seen and does not believe the neighbor to know. Nothing of the
    /// node's state changes.
    pub fn gossip_round(&self) -> (r: Result<Vec<Message<BroadcastPayload>>, BroadcastError>)
        requires
            self.wf(),
        ensures
            round_sent(self@, r),
    {
        let mut out: Vec<Message<BroadcastPayload>> = Vec::new();
        let mut i: usize = 0;
        while i < self.neighbors.len()
            invariant
                self.wf(),
                i <= self.neighbors@.len(),
                out@.len() == i,
                forall|j: int|
                    0 <= j < i ==> self@.believed.contains_key(
                        #[trigger] names(self.neighbors@)[j],
                    ),
                forall|j: int|
                    0 <= j < i ==> is_gossip_to(#[trigger] out@[j], self@, names(self.neighbors@)[j]),
            decreases self.neighbors@.len() - i,
        {
            assert(names(self.neighbors@)[i as int] == self.neighbors@[i as int]@);
            match self.find_peer(&self.neighbors[i]) {
                Some(at) => {
                    let seen = self.msgs.difference(&self.known[at]);
                    out.push(
                        Message {
                            src: self.node.clone(),
                            dest: self.neighbors[i].clone(),
                            body: Body {
                                id: None,
                                in_reply_to: None,
                                payload: BroadcastPayload::Gossip { seen },
                            },
                        },
                    );
                },
                None => {
                    let name = self.neighbors[i].clone();
                    assert(self@.neighbors[i as int] == name@);
                    return Err(BroadcastError::UnknownPeer { name });
                },
            }
            i = i + 1;
        }
        Ok(out)
    }

    /// Handles one event: takes in what it brings and returns the messages
    /// to send, in order. A reply-only payload that arrives as a request is
    /// passed over. Every inbound message uses up one identifier.
    pub fn handle(&mut self, event: Event<BroadcastPayload, Trigger>) -> (r: Result<
        Vec<Message<BroadcastPayload>>,
        BroadcastError,
    >)
        requires
            old(self).wf(),
        ensures
            final(self).wf(),
            handled(old(self)@, event, final(self)@, r),
    {
        match event {
            Event::Eof => Ok(Vec::new()),
            Event::Injected(_) => self.gossip_round(),
            Event::Message(message) => {
                let ghost before = *self;
                let reply = message.into_reply(&mut self.ids);
                let ghost at = NodeState { next_id: id_after(before@.next_id), ..before@ };
                proof {
                    assert forall|n: Seq<char>| self.is_peer(n) == before.is_peer(n) by {}
                    assert forall|n: Seq<char>| self.known_to(n) == before.known_to(n) by {
                        assert(self.peer_at(n) == before.peer_at(n));
                    }
                    assert(self@.believed =~= before@.believed);
                    assert(self@ == at);
                }
                let Message { src, dest, body } = reply;
                let Body { id, in_reply_to, payload } = body;
                match payload {
                    BroadcastPayload::Gossip { seen } => {
                        match self.take_gossip(&dest, &seen) {
                            Ok(()) => Ok(Vec::new()),
                            Err(e) => Err(e),
                        }
                    },
                    BroadcastPayload::Broadcast { msg } => {
                        let _ = self.msgs.insert(msg);
                        proof {
                            assert forall|n: Seq<char>| self.is_peer(n) == before.is_peer(n) by {}
                            assert forall|n: Seq<char>| self.known_to(n) == before.known_to(n) by {
                                assert(self.peer_at(n) == before.peer_at(n));
                            }
                            assert(self@.believed =~= before@.believed);
                        }
                        let mut out: Vec<Message<BroadcastPayload>> = Vec::new();
                        out.push(
                            Message {
                                src,
                                dest,
                                body: Body { id, in_reply_to, payload: BroadcastPayload::BroadcastOk },
                            },
                        );
                        Ok(out)
                    },
                    BroadcastPayload::Read => {
                        let msgs = self.msgs.snapshot();
                        let mut out: Vec<Message<BroadcastPayload>> = Vec::new();
                        out.push(
                            Message {
                                src,
                                dest,
                                body: Body {
                                    id,
                                    in_reply_to,
                                    payload: BroadcastPayload::ReadOk { msgs },
                                },
                            },
                        );
                        Ok(out)
                    },
                    BroadcastPayload::Topology { topo } => {
                        if self.take_topology(&topo) {
                            let mut out: Vec<Message<BroadcastPayload>> = Vec::new();
                            out.push(
                                Message {
                                    src,
                                    dest,
                                    body: Body {
                                        id,
                                        in_reply_to,
                                        payload: BroadcastPayload::TopologyOk,
                                    },
                                },
                            );
                            Ok(out)
                        } else {
                            Err(BroadcastError::MissingFromTopology)
                        }
                    },
                    BroadcastPayload::BroadcastOk => Ok(Vec::new()),
                    BroadcastPayload::ReadOk { .. } => Ok(Vec::new()),
                    BroadcastPayload::TopologyOk => Ok(Vec::new()),
                }
            },
        }
    }
}

} // verus!

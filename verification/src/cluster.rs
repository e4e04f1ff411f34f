use vstd::prelude::*;
use crate::broadcast::{
    handled, is_gossip_to, BroadcastError, BroadcastPayload, NodeState, Trigger,
};
use crate::broadcast_facts::{gossip_carries_over, grown, state_only_grows};
use crate::message::{Event, Message};

verus! {

/// The broadcast nodes of a cluster, each under its name.
pub type Cluster = Map<Seq<char>, NodeState>;

/// One step of a cluster: one node handles one event.
pub enum Step {
    /// The node `at` handles an event that is no gossip: a message of a
    /// client, a trigger, the end of its input.
    Local {
        at: Seq<char>,
        event: Event<BroadcastPayload, Trigger>,
        r: Result<Vec<Message<BroadcastPayload>>, BroadcastError>,
    },
    /// The node that `m` is addressed to takes in the gossip `m`, which
    /// its sender sent at some earlier time.
    Delivery { m: Message<BroadcastPayload>, r: Result<Vec<Message<BroadcastPayload>>, BroadcastError> },
}

/// Whether step `s` leads from `c` to `c2`. Gossip that is delivered holds
/// only values that its sender has seen.
pub open spec fn step_taken(c: Cluster, s: Step, c2: Cluster) -> bool {
    match s {
        Step::Local { at, event, r } => {
            &&& c.contains_key(at)
            &&& !(event matches Event::Message(m) && m.body.payload is Gossip)
            &&& handled(c[at], event, c2[at], r)
            &&& c2 == c.insert(at, c2[at])
        },
        Step::Delivery { m, r } => {
            &&& c.contains_key(m.dest@)
            &&& c.contains_key(m.src@)
            &&& m.body.payload matches BroadcastPayload::Gossip { seen }
            &&& seen@.subset_of(c[m.src@].msgs)
            &&& handled(c[m.dest@], Event::Message(m), c2[m.dest@], r)
            &&& c2 == c.insert(m.dest@, c2[m.dest@])
        },
    }
}

/// Every node stands under its own name, and what any node believes of
/// another is true: the other has seen those values.
pub open spec fn sound(c: Cluster) -> bool {
    &&& forall|a: Seq<char>| #[trigger] c.contains_key(a) ==> c[a].node == a
    &&& forall|a: Seq<char>, b: Seq<char>|
        c.contains_key(a) && #[trigger] c[a].believed.contains_key(b) ==> c.contains_key(b)
            && c[a].believed[b].subset_of(c[b].msgs)
}

/// Whether every node of `early` is in `late` and has only grown.
pub open spec fn cluster_grown(early: Cluster, late: Cluster) -> bool {
    forall|x: Seq<char>| #[trigger]
        early.contains_key(x) ==> late.contains_key(x) && grown(early[x], late[x])
}

/// A step keeps the cluster sound and lets no node forget anything.
pub proof fn step_keeps_sound(c: Cluster, s: Step, c2: Cluster)
    requires
        sound(c),
        step_taken(c, s, c2),
    ensures
        sound(c2),
        cluster_grown(c, c2),
{
    match s {
        Step::Local { at, event, r } => {
            state_only_grows(c[at], event, c2[at], r);
            assert(c2[at].believed == c[at].believed);
        },
        Step::Delivery { m, r } => {
            state_only_grows(c[m.dest@], Event::Message(m), c2[m.dest@], r);
        },
    }
}

/// Whether `cs` is what a cluster goes through while it takes `steps`.
pub open spec fn is_cluster_run(cs: Seq<Cluster>, steps: Seq<Step>) -> bool {
    &&& cs.len() == steps.len() + 1
    &&& forall|k: int| 0 <= k < steps.len() ==> step_taken(#[trigger] cs[k], steps[k], cs[k + 1])
}

proof fn lemma_grown_chain(a: Cluster, b: Cluster, c: Cluster)
    requires
        cluster_grown(a, b),
        cluster_grown(b, c),
    ensures
        cluster_grown(a, c),
{
    assert forall|x: Seq<char>| #[trigger] a.contains_key(x) implies c.contains_key(x) && grown(
        a[x],
        c[x],
    ) by {
        assert(b.contains_key(x));
        assert(grown(a[x], b[x]));
        assert(grown(b[x], c[x]));
        assert forall|n: Seq<char>| #[trigger]
            a[x].believed.contains_key(n) implies c[x].believed.contains_key(n)
            && a[x].believed[n].subset_of(c[x].believed[n]) by {
            assert(b[x].believed.contains_key(n));
        }
    }
}

/// Over any run a sound cluster stays sound, and no node forgets anything.
pub proof fn run_keeps_sound(cs: Seq<Cluster>, steps: Seq<Step>, i: int, j: int)
    requires
        is_cluster_run(cs, steps),
        sound(cs[0]),
        0 <= i <= j < cs.len(),
    ensures
        sound(cs[i]),
        sound(cs[j]),
        cluster_grown(cs[i], cs[j]),
    decreases j,
{
    if j == 0 {
    } else if i == j {
        run_keeps_sound(cs, steps, 0, j - 1);
        assert(step_taken(cs[j - 1], steps[j - 1], cs[j]));
        step_keeps_sound(cs[j - 1], steps[j - 1], cs[j]);
    } else {
        run_keeps_sound(cs, steps, i, j - 1);
        assert(step_taken(cs[j - 1], steps[j - 1], cs[j]));
        step_keeps_sound(cs[j - 1], steps[j - 1], cs[j]);
        lemma_grown_chain(cs[i], cs[j - 1], cs[j]);
    }
}

/// A cluster of nodes that believe nothing yet, as they are after the
/// handshake, is sound.
pub proof fn fresh_cluster_is_sound(c: Cluster)
    requires
        forall|a: Seq<char>| #[trigger] c.contains_key(a) ==> c[a].node == a,
        forall|a: Seq<char>, b: Seq<char>|
            c.contains_key(a) && #[trigger] c[a].believed.contains_key(b) ==> c.contains_key(b)
                && c[a].believed[b] == Set::<usize>::empty(),
    ensures
        sound(c),
{
}

/// Whether some node of the cluster has seen `v`.
pub open spec fn seen_somewhere(c: Cluster, v: usize) -> bool {
    exists|a: Seq<char>| #[trigger] c.contains_key(a) && c[a].msgs.contains(v)
}

/// Whether step `s` is the delivery of a broadcast of `v` by a client.
pub open spec fn broadcasts(s: Step, v: usize) -> bool {
    &&& s matches Step::Local { event, .. }
    &&& event matches Event::Message(m)
    &&& m.body.payload matches BroadcastPayload::Broadcast { msg }
    &&& msg == v
}

/// No value comes from nowhere: what some node has seen after a step, some
/// node had seen before it, unless the step is the broadcast of that value.
pub proof fn values_come_from_broadcasts(c: Cluster, s: Step, c2: Cluster, v: usize)
    requires
        step_taken(c, s, c2),
        seen_somewhere(c2, v),
    ensures
        seen_somewhere(c, v) || broadcasts(s, v),
{
    let a = choose|a: Seq<char>| #[trigger] c2.contains_key(a) && c2[a].msgs.contains(v);
    match s {
        Step::Local { at, event, r } => {
            if a != at {
                assert(c.contains_key(a) && c[a].msgs.contains(v));
            } else if !broadcasts(s, v) {
                assert(c.contains_key(at) && c[at].msgs.contains(v));
            }
        },
        Step::Delivery { m, r } => {
            if a != m.dest@ {
                assert(c.contains_key(a) && c[a].msgs.contains(v));
            } else if !c[m.dest@].msgs.contains(v) {
                assert(c.contains_key(m.src@) && c[m.src@].msgs.contains(v));
            } else {
                assert(c.contains_key(m.dest@) && c[m.dest@].msgs.contains(v));
            }
        },
    }
}

/// Whether the run holds one hop of gossip from `a` to `b`: `a` sent the
/// gossip out of its state before step `sent`, and step `taken` delivers it.
pub open spec fn hop(
    cs: Seq<Cluster>,
    steps: Seq<Step>,
    a: Seq<char>,
    b: Seq<char>,
    sent: int,
    taken: int,
) -> bool {
    &&& 0 <= sent <= taken < steps.len()
    &&& cs[sent].contains_key(a)
    &&& cs[sent].contains_key(b)
    &&& cs[sent][a].believed.contains_key(b)
    &&& cs[sent][b].believed.contains_key(a)
    &&& steps[taken] matches Step::Delivery { m, r }
    &&& is_gossip_to(m, cs[sent][a], b)
}

/// After a hop the receiver has seen all that the sender had seen when it
/// sent.
pub proof fn hop_delivers(
    cs: Seq<Cluster>,
    steps: Seq<Step>,
    a: Seq<char>,
    b: Seq<char>,
    sent: int,
    taken: int,
)
    requires
        is_cluster_run(cs, steps),
        sound(cs[0]),
        hop(cs, steps, a, b, sent, taken),
    ensures
        cs[taken + 1].contains_key(b),
        cs[sent][a].msgs.subset_of(cs[taken + 1][b].msgs),
{
    run_keeps_sound(cs, steps, sent, taken);
    assert(step_taken(cs[taken], steps[taken], cs[taken + 1]));
    let m = steps[taken]->Delivery_m;
    let r = steps[taken]->Delivery_r;
    assert(grown(cs[sent][b], cs[taken][b]));
    assert(cs[sent][a].believed[b].subset_of(cs[sent][b].msgs));
    gossip_carries_over(cs[sent][a], m, cs[taken][b], cs[taken + 1][b], r);
}

/// Values reach every node that a path leads to. Take any run of a sound
/// cluster and any path of nodes; if the run holds a hop of gossip over
/// each link of the path, each sent after the one before it was delivered,
/// then whatever the first node had seen when it sent, the last node has
/// seen once the last hop is delivered.
pub proof fn values_reach_along_a_path(
    cs: Seq<Cluster>,
    steps: Seq<Step>,
    path: Seq<Seq<char>>,
    sent: Seq<int>,
    taken: Seq<int>,
)
    requires
        is_cluster_run(cs, steps),
        sound(cs[0]),
        sent.len() > 0,
        taken.len() == sent.len(),
        path.len() == sent.len() + 1,
        forall|i: int|
            0 <= i < sent.len() ==> hop(cs, steps, path[i], path[i + 1], #[trigger] sent[i], taken[i]),
        forall|i: int, j: int|
            0 <= i && j == i + 1 && j < sent.len() ==> #[trigger] taken[i] < #[trigger] sent[j],
    ensures
        cs[taken.last() + 1].contains_key(path.last()),
        cs[sent[0]][path[0]].msgs.subset_of(cs[taken.last() + 1][path.last()].msgs),
    decreases sent.len(),
{
    let k = sent.len() - 1;
    assert(hop(cs, steps, path[k], path[k + 1], sent[k], taken[k]));
    hop_delivers(cs, steps, path[k], path[k + 1], sent[k], taken[k]);
    if k > 0 {
        let path0 = path.take(k + 1);
        let sent0 = sent.take(k);
        let taken0 = taken.take(k);
        assert forall|i: int| 0 <= i < sent0.len() implies hop(
            cs,
            steps,
            path0[i],
            path0[i + 1],
            #[trigger] sent0[i],
            taken0[i],
        ) by {
            assert(sent0[i] == sent[i]);
            assert(hop(cs, steps, path[i], path[i + 1], sent[i], taken[i]));
        }
        assert forall|i: int, j: int| 0 <= i && j == i + 1 && j < sent0.len() implies #[trigger]
            taken0[i] < #[trigger] sent0[j] by {
            assert(taken[i] < sent[j]);
        }
        values_reach_along_a_path(cs, steps, path0, sent0, taken0);
        assert(taken0.last() == taken[k - 1]);
        assert(path0.last() == path[k]);
        assert(taken[k - 1] < sent[k]);
        assert(hop(cs, steps, path[k - 1], path[k], sent[k - 1], taken[k - 1]));
        run_keeps_sound(cs, steps, taken[k - 1] + 1, sent[k]);
        assert(grown(cs[taken[k - 1] + 1][path[k]], cs[sent[k]][path[k]]));
    }
}

/// Over a run no value comes from nowhere: what some node has seen at any
/// time, some node had seen at the start, or a step before that time was
/// the broadcast of it.
pub proof fn run_values_come_from_broadcasts(cs: Seq<Cluster>, steps: Seq<Step>, j: int, v: usize)
    requires
        is_cluster_run(cs, steps),
        0 <= j < cs.len(),
        seen_somewhere(cs[j], v),
    ensures
        seen_somewhere(cs[0], v) || exists|k: int| 0 <= k < j && broadcasts(#[trigger] steps[k], v),
    decreases j,
{
    if j > 0 {
        assert(step_taken(cs[j - 1], steps[j - 1], cs[j]));
        values_come_from_broadcasts(cs[j - 1], steps[j - 1], cs[j], v);
        if broadcasts(steps[j - 1], v) {
        } else {
            run_values_come_from_broadcasts(cs, steps, j - 1, v);
        }
    }
}

/// Whether the steps from `lo` up to, not including, `hi` hold a hop of
/// gossip from `a` to `b`, sent and delivered.
pub open spec fn hop_within(
    cs: Seq<Cluster>,
    steps: Seq<Step>,
    a: Seq<char>,
    b: Seq<char>,
    lo: int,
    hi: int,
) -> bool {
    exists|sent: int, taken: int|
        lo <= sent && taken < hi && #[trigger] hop(cs, steps, a, b, sent, taken)
}

/// Values spread one link per round. Cut a run of a sound cluster into
/// rounds at the times `bounds`, and take a path with one link per round.
/// If round `i` holds a hop of gossip over link `i` of the path, as it does
/// when in every round every node gossips to every neighbor and the gossip
/// is delivered, then after the last of these rounds, and at any time `end`
/// after it, the last node of the path has seen whatever the first had seen
/// when the first round began. In a graph of diameter `d` every node is
/// joined to every other by such a path of at most `d` links, so `d` rounds
/// bring every value to every node.
pub proof fn values_reach_in_rounds(
    cs: Seq<Cluster>,
    steps: Seq<Step>,
    bounds: Seq<int>,
    path: Seq<Seq<char>>,
    end: int,
)
    requires
        is_cluster_run(cs, steps),
        sound(cs[0]),
        path.len() >= 1,
        bounds.len() == path.len(),
        0 <= bounds[0],
        bounds.last() <= end < cs.len(),
        cs[bounds[0]].contains_key(path[0]),
        forall|i: int, j: int|
            0 <= i && j == i + 1 && j < bounds.len() ==> #[trigger] bounds[i] <= #[trigger] bounds[j],
        forall|i: int, j: int|
            0 <= i && j == i + 1 && j < path.len() ==> hop_within(
                cs,
                steps,
                #[trigger] path[i],
                #[trigger] path[j],
                bounds[i],
                bounds[j],
            ),
    ensures
        bounds[0] <= end,
        cs[end].contains_key(path.last()),
        cs[bounds[0]][path[0]].msgs.subset_of(cs[end][path.last()].msgs),
    decreases path.len(),
{
    let k = path.len() - 1;
    if k == 0 {
        run_keeps_sound(cs, steps, bounds[0], end);
        assert(grown(cs[bounds[0]][path[0]], cs[end][path[0]]));
    } else {
        let path0 = path.take(k);
        let bounds0 = bounds.take(k);
        assert(bounds[k - 1] <= bounds[k]);
        assert forall|i: int, j: int| 0 <= i && j == i + 1 && j < bounds0.len() implies #[trigger]
            bounds0[i] <= #[trigger] bounds0[j] by {
            assert(bounds[i] <= bounds[j]);
        }
        assert forall|i: int, j: int| 0 <= i && j == i + 1 && j < path0.len() implies hop_within(
            cs,
            steps,
            #[trigger] path0[i],
            #[trigger] path0[j],
            bounds0[i],
            bounds0[j],
        ) by {
            assert(hop_within(cs, steps, path[i], path[j], bounds[i], bounds[j]));
        }
        values_reach_in_rounds(cs, steps, bounds0, path0, bounds[k - 1]);
        let a = path[k - 1];
        let b = path[k];
        assert(hop_within(cs, steps, a, b, bounds[k - 1], bounds[k]));
        let (sent, taken) = choose|sent: int, taken: int|
            bounds[k - 1] <= sent && taken < bounds[k] && #[trigger] hop(
                cs,
                steps,
                a,
                b,
                sent,
                taken,
            );
        run_keeps_sound(cs, steps, bounds[k - 1], sent);
        assert(grown(cs[bounds[k - 1]][a], cs[sent][a]));
        hop_delivers(cs, steps, a, b, sent, taken);
        run_keeps_sound(cs, steps, taken + 1, end);
        assert(grown(cs[taken + 1][b], cs[end][b]));
    }
}

/// Whether `path` leads from `x` to `y` and the rounds cut at `bounds`,
/// the first of which begins at `start` and the last of which is over by
/// `end`, hold a hop over each of its links in turn.
pub open spec fn joined_in_rounds(
    cs: Seq<Cluster>,
    steps: Seq<Step>,
    start: int,
    end: int,
    x: Seq<char>,
    y: Seq<char>,
    path: Seq<Seq<char>>,
    bounds: Seq<int>,
) -> bool {
    &&& path.len() >= 1
    &&& bounds.len() == path.len()
    &&& path[0] == x
    &&& path.last() == y
    &&& bounds[0] == start
    &&& 0 <= start
    &&& bounds.last() <= end < cs.len()
    &&& forall|i: int, j: int|
        0 <= i && j == i + 1 && j < bounds.len() ==> #[trigger] bounds[i] <= #[trigger] bounds[j]
    &&& forall|i: int, j: int|
        0 <= i && j == i + 1 && j < path.len() ==> hop_within(
            cs,
            steps,
            #[trigger] path[i],
            #[trigger] path[j],
            bounds[i],
            bounds[j],
        )
}

/// Every node comes to see every value. If between `start` and `end` every
/// node of a sound cluster is joined to every other by a path with a hop of
/// gossip over each link, round after round, then at `end` every node has
/// seen all that any node had seen at `start`. With
/// `run_values_come_from_broadcasts` this fixes what every node has seen:
/// the values broadcast, all of them and no others.
pub proof fn every_node_sees_every_value(
    cs: Seq<Cluster>,
    steps: Seq<Step>,
    start: int,
    end: int,
    path_of: spec_fn(Seq<char>, Seq<char>) -> Seq<Seq<char>>,
    bounds_of: spec_fn(Seq<char>, Seq<char>) -> Seq<int>,
)
    requires
        is_cluster_run(cs, steps),
        sound(cs[0]),
        0 <= start <= end < cs.len(),
        forall|x: Seq<char>, y: Seq<char>|
            cs[start].contains_key(x) && cs[start].contains_key(y) ==> joined_in_rounds(
                cs,
                steps,
                start,
                end,
                x,
                y,
                #[trigger] path_of(x, y),
                bounds_of(x, y),
            ),
    ensures
        forall|x: Seq<char>, y: Seq<char>|
            cs[start].contains_key(x) && #[trigger] cs[start].contains_key(y) ==> cs[end].contains_key(
                y,
            ) && (#[trigger] cs[start][x]).msgs.subset_of(cs[end][y].msgs),
{
    assert forall|x: Seq<char>, y: Seq<char>|
        cs[start].contains_key(x) && #[trigger] cs[start].contains_key(y) implies cs[end].contains_key(
        y,
    ) && (#[trigger] cs[start][x]).msgs.subset_of(cs[end][y].msgs) by {
        assert(joined_in_rounds(cs, steps, start, end, x, y, path_of(x, y), bounds_of(x, y)));
        values_reach_in_rounds(cs, steps, bounds_of(x, y), path_of(x, y), end);
    }
}

} // verus!

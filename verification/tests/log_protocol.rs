use std::collections::HashMap;

use gossip_glomers::kv::{
    make_committed_key, make_entry_key, make_latest_key, KvCall, KvOutcome, KvRequest, Store,
};
use gossip_glomers::log::{
    commit_plan, list_collect, list_plan, outcome_of, poll_collect, poll_found, poll_plan,
    poll_window, request_payload, route, LogPayload, Routed, SendOp, SendStep,
};
use gossip_glomers::message::{Body, Event, IdCounter, Message};

struct Services {
    lin: HashMap<String, i64>,
    seq: HashMap<String, i64>,
}

fn services() -> Services {
    Services { lin: HashMap::new(), seq: HashMap::new() }
}

fn serve(services: &mut Services, call: &KvCall) -> KvOutcome {
    let store = match call.store {
        Store::Linearizable => &mut services.lin,
        Store::Sequential => &mut services.seq,
    };
    match &call.request {
        KvRequest::Read { key } => match store.get(key) {
            Some(v) => KvOutcome::Value(*v),
            None => KvOutcome::Failed,
        },
        KvRequest::Write { key, value } => {
            store.insert(key.clone(), *value);
            KvOutcome::Written
        }
        KvRequest::Cas { key, from, to, create } => match store.get(key).copied() {
            Some(v) if v == *from => {
                store.insert(key.clone(), *to);
                KvOutcome::Swapped
            }
            Some(_) => KvOutcome::Failed,
            None => {
                if *create {
                    store.insert(key.clone(), *to);
                    KvOutcome::Swapped
                } else {
                    KvOutcome::Failed
                }
            }
        },
    }
}

fn step(services: &mut Services, op: &mut SendOp) -> bool {
    match op.pending() {
        Some(call) => {
            let outcome = serve(services, &call);
            op.advance(outcome);
            true
        }
        None => false,
    }
}

fn send(services: &mut Services, key: &str, msg: i64) -> i64 {
    let mut op = SendOp::new(key.to_string(), msg);
    while step(services, &mut op) {}
    op.offset().unwrap()
}

fn poll(services: &mut Services, offsets: Vec<(String, i64)>) -> Vec<(String, Vec<(i64, i64)>)> {
    let plan = poll_plan(&offsets);
    let mut outcomes = Vec::new();
    for calls in &plan {
        let mut row = Vec::new();
        for call in calls {
            row.push(serve(services, call));
        }
        outcomes.push(row);
    }
    poll_collect(&offsets, &outcomes)
}

fn commit(services: &mut Services, offsets: Vec<(String, i64)>) {
    for call in &commit_plan(&offsets) {
        serve(services, call);
    }
}

fn list(services: &mut Services, keys: Vec<String>) -> Vec<(String, i64)> {
    let mut outcomes = Vec::new();
    for call in &list_plan(&keys) {
        outcomes.push(serve(services, call));
    }
    list_collect(&keys, &outcomes)
}

fn request(payload: LogPayload) -> Message<LogPayload> {
    Message {
        src: "c1".to_string(),
        dest: "n1".to_string(),
        body: Body { id: Some(7), in_reply_to: None, payload },
    }
}

#[test]
fn sequential_sends_get_offsets_zero_and_one() {
    let mut s = services();
    assert_eq!(send(&mut s, "k", 100), 0);
    assert_eq!(send(&mut s, "k", 200), 1);
    let polled = poll(&mut s, vec![("k".to_string(), 0)]);
    assert_eq!(polled, vec![("k".to_string(), vec![(0, 100), (1, 200)])]);
}

#[test]
fn interleaved_sends_get_distinct_offsets() {
    let mut s = services();
    let mut a = SendOp::new("k".to_string(), 1);
    let mut b = SendOp::new("k".to_string(), 2);
    // both read the marker before either claims
    assert!(step(&mut s, &mut a));
    assert!(step(&mut s, &mut b));
    assert_eq!(a.step, SendStep::Claim { candidate: 0 });
    assert_eq!(b.step, SendStep::Claim { candidate: 0 });
    assert!(step(&mut s, &mut b));
    assert!(step(&mut s, &mut a));
    assert_eq!(b.step, SendStep::StoreMessage { offset: 0 });
    assert_eq!(a.step, SendStep::Claim { candidate: 1 });
    while step(&mut s, &mut a) {}
    while step(&mut s, &mut b) {}
    let mut got = vec![a.offset().unwrap(), b.offset().unwrap()];
    got.sort();
    assert_eq!(got, vec![0, 1]);
    let polled = poll(&mut s, vec![("k".to_string(), 0)]);
    assert_eq!(polled[0].1.len(), 2);
    assert_eq!(polled[0].1, vec![(0, 2), (1, 1)]);
}

#[test]
fn many_sends_get_pairwise_distinct_offsets() {
    let mut s = services();
    let mut ops: Vec<SendOp> =
        (0..6).map(|i: i64| SendOp::new("key".to_string(), 10 + i)).collect();
    let mut busy = true;
    while busy {
        busy = false;
        for op in ops.iter_mut().rev() {
            if step(&mut s, op) {
                busy = true;
            }
        }
    }
    let mut got: Vec<i64> = ops.iter().map(|op| op.offset().unwrap()).collect();
    got.sort();
    assert_eq!(got, vec![0, 1, 2, 3, 4, 5]);
}

#[test]
fn send_makes_its_calls_in_order() {
    let mut op = SendOp::new("k".to_string(), 9);
    assert_eq!(
        op.pending(),
        Some(KvCall {
            store: Store::Linearizable,
            request: KvRequest::Read { key: "latest:k".to_string() }
        })
    );
    op.advance(KvOutcome::Value(4));
    assert_eq!(
        op.pending(),
        Some(KvCall {
            store: Store::Linearizable,
            request: KvRequest::Cas { key: "latest:k".to_string(), from: 3, to: 4, create: true }
        })
    );
    op.advance(KvOutcome::Failed);
    assert_eq!(op.step, SendStep::Claim { candidate: 5 });
    op.advance(KvOutcome::Swapped);
    assert_eq!(
        op.pending(),
        Some(KvCall {
            store: Store::Sequential,
            request: KvRequest::Write { key: "k:5".to_string(), value: 9 }
        })
    );
    op.advance(KvOutcome::Failed);
    assert_eq!(
        op.pending(),
        Some(KvCall {
            store: Store::Sequential,
            request: KvRequest::Write { key: "latest:k".to_string(), value: 5 }
        })
    );
    assert_eq!(op.offset(), None);
    op.advance(KvOutcome::Failed);
    assert_eq!(op.pending(), None);
    assert_eq!(op.offset(), Some(5));
    op.advance(KvOutcome::Written);
    assert_eq!(op.offset(), Some(5));
}

#[test]
fn a_written_reply_does_not_win_a_claim() {
    let mut op = SendOp::new("k".to_string(), 9);
    op.advance(KvOutcome::Failed);
    assert_eq!(op.step, SendStep::Claim { candidate: 0 });
    op.advance(KvOutcome::Written);
    assert_eq!(op.step, SendStep::Claim { candidate: 1 });
    op.advance(KvOutcome::Value(1));
    assert_eq!(op.step, SendStep::Claim { candidate: 2 });
}

#[test]
fn candidates_wrap_at_the_ends_of_the_range() {
    let mut op = SendOp::new("k".to_string(), 9);
    op.advance(KvOutcome::Value(i64::MAX));
    op.advance(KvOutcome::Failed);
    assert_eq!(op.step, SendStep::Claim { candidate: i64::MIN });
    match op.pending().unwrap().request {
        KvRequest::Cas { from, to, .. } => {
            assert_eq!(from, i64::MAX);
            assert_eq!(to, i64::MIN);
        }
        _ => panic!("a claim is a compare-and-swap"),
    }
}

#[test]
fn keys_follow_the_schema() {
    let k = "orders".to_string();
    assert_eq!(make_latest_key(&k), "latest:orders");
    assert_eq!(make_committed_key(&k), "committed:orders");
    assert_eq!(make_entry_key(&k, 0), "orders:0");
    assert_eq!(make_entry_key(&k, 1234), "orders:1234");
    assert_eq!(make_entry_key(&k, -3), "orders:-3");
    assert_eq!(Store::Linearizable.address(), "lin-kv");
    assert_eq!(Store::Sequential.address(), "seq-kv");
}

#[test]
fn poll_reads_five_offsets() {
    let calls = poll_window(&"k".to_string(), 3);
    let keys: Vec<String> = calls
        .iter()
        .map(|c| match &c.request {
            KvRequest::Read { key } => key.clone(),
            _ => panic!("a poll only reads"),
        })
        .collect();
    assert_eq!(keys, vec!["k:3", "k:4", "k:5", "k:6", "k:7"]);
    assert!(calls.iter().all(|c| c.store == Store::Sequential));
}

#[test]
fn poll_window_stops_at_the_last_offset() {
    assert_eq!(poll_window(&"k".to_string(), i64::MAX).len(), 1);
    assert_eq!(poll_window(&"k".to_string(), i64::MAX - 4).len(), 5);
    assert_eq!(poll_window(&"k".to_string(), i64::MAX - 3).len(), 4);
    let found = poll_found(i64::MAX - 1, &vec![KvOutcome::Value(1), KvOutcome::Value(2)]);
    assert_eq!(found, vec![(i64::MAX - 1, 1), (i64::MAX, 2)]);
}

#[test]
fn poll_leaves_out_absent_offsets() {
    let outcomes = vec![
        KvOutcome::Value(10),
        KvOutcome::Failed,
        KvOutcome::Value(30),
        KvOutcome::Written,
        KvOutcome::Swapped,
    ];
    assert_eq!(poll_found(4, &outcomes), vec![(4, 10), (6, 30)]);
    assert_eq!(poll_found(4, &vec![]), vec![]);
    // outcomes beyond the window are not read
    let long = vec![KvOutcome::Value(1); 8];
    assert_eq!(poll_found(0, &long).len(), 5);
}

#[test]
fn poll_gap_does_not_touch_other_keys() {
    let mut s = services();
    s.seq.insert("a:0".to_string(), 1);
    s.seq.insert("a:2".to_string(), 3);
    s.seq.insert("b:5".to_string(), 50);
    s.seq.insert("b:6".to_string(), 60);
    let polled = poll(
        &mut s,
        vec![("a".to_string(), 0), ("none".to_string(), 0), ("b".to_string(), 5)],
    );
    assert_eq!(
        polled,
        vec![
            ("a".to_string(), vec![(0, 1), (2, 3)]),
            ("none".to_string(), vec![]),
            ("b".to_string(), vec![(5, 50), (6, 60)]),
        ]
    );
}

#[test]
fn poll_collect_with_too_few_outcomes() {
    let offsets = vec![("a".to_string(), 0), ("b".to_string(), 0)];
    let got = poll_collect(&offsets, &vec![vec![KvOutcome::Value(5)]]);
    assert_eq!(got, vec![("a".to_string(), vec![(0, 5)]), ("b".to_string(), vec![])]);
}

#[test]
fn sent_entry_is_polled_from_its_offset() {
    let mut s = services();
    for i in 0..7 {
        send(&mut s, "k", 100 + i);
    }
    let o = send(&mut s, "k", 777);
    assert_eq!(o, 7);
    let polled = poll(&mut s, vec![("k".to_string(), o)]);
    assert!(polled[0].1.contains(&(o, 777)));
    let earlier = poll(&mut s, vec![("k".to_string(), o - 4)]);
    assert!(earlier[0].1.contains(&(o, 777)));
    let too_early = poll(&mut s, vec![("k".to_string(), o - 5)]);
    assert!(!too_early[0].1.contains(&(o, 777)));
}

#[test]
fn commit_is_read_back_and_last_write_wins() {
    let mut s = services();
    commit(&mut s, vec![("k".to_string(), 9)]);
    assert_eq!(list(&mut s, vec!["k".to_string()]), vec![("k".to_string(), 9)]);
    commit(&mut s, vec![("k".to_string(), 4)]);
    assert_eq!(list(&mut s, vec!["k".to_string()]), vec![("k".to_string(), 4)]);
    assert!(s.lin.is_empty());
    assert_eq!(s.seq.get("committed:k"), Some(&4));
}

#[test]
fn uncommitted_key_lists_as_zero() {
    let mut s = services();
    commit(&mut s, vec![("a".to_string(), 3)]);
    let got = list(&mut s, vec!["missing".to_string(), "a".to_string()]);
    assert_eq!(got, vec![("missing".to_string(), 0), ("a".to_string(), 3)]);
    let short = list_collect(&vec!["x".to_string(), "y".to_string()], &vec![KvOutcome::Value(2)]);
    assert_eq!(short, vec![("x".to_string(), 2), ("y".to_string(), 0)]);
}

#[test]
fn commit_plan_writes_each_marker() {
    let plan = commit_plan(&vec![("a".to_string(), 1), ("b".to_string(), -2)]);
    assert_eq!(
        plan,
        vec![
            KvCall {
                store: Store::Sequential,
                request: KvRequest::Write { key: "committed:a".to_string(), value: 1 }
            },
            KvCall {
                store: Store::Sequential,
                request: KvRequest::Write { key: "committed:b".to_string(), value: -2 }
            },
        ]
    );
    let reads = list_plan(&vec!["a".to_string()]);
    assert_eq!(
        reads,
        vec![KvCall {
            store: Store::Sequential,
            request: KvRequest::Read { key: "committed:a".to_string() }
        }]
    );
}

#[test]
fn reply_payloads_give_outcomes() {
    assert_eq!(outcome_of(&LogPayload::ReadOk { value: 5 }), KvOutcome::Value(5));
    assert_eq!(outcome_of(&LogPayload::WriteOk), KvOutcome::Written);
    assert_eq!(outcome_of(&LogPayload::CasOk), KvOutcome::Swapped);
    assert_eq!(
        outcome_of(&LogPayload::Error { code: 20, text: "not found".to_string() }),
        KvOutcome::Failed
    );
    assert_eq!(outcome_of(&LogPayload::SendOk { offset: 1 }), KvOutcome::Failed);
}

#[test]
fn requests_become_payloads() {
    assert_eq!(
        request_payload(KvRequest::Read { key: "a".to_string() }),
        LogPayload::Read { key: "a".to_string() }
    );
    assert_eq!(
        request_payload(KvRequest::Write { key: "a".to_string(), value: 2 }),
        LogPayload::Write { key: "a".to_string(), value: 2 }
    );
    assert_eq!(
        request_payload(KvRequest::Cas { key: "a".to_string(), from: 1, to: 2, create: true }),
        LogPayload::Cas { key: "a".to_string(), from: 1, to: 2, create: true }
    );
}

#[test]
fn a_reply_is_routed_to_its_call() {
    let mut ids = IdCounter::new();
    let mut m = request(LogPayload::Send { key: "k".to_string(), msg: 1 });
    m.body.in_reply_to = Some(12);
    let routed = route::<()>(Event::Message(m.clone()), &mut ids);
    match routed {
        Routed::Completion { id, message } => {
            assert_eq!(id, 12);
            assert_eq!(message, m);
        }
        _ => panic!("a reply completes a call"),
    }
    assert_eq!(ids.next, 1);
}

#[test]
fn a_request_is_routed_with_its_reply_skeleton() {
    let mut ids = IdCounter::new();
    let m = request(LogPayload::Poll { offsets: vec![("k".to_string(), 0)] });
    match route::<()>(Event::Message(m), &mut ids) {
        Routed::Request { reply } => {
            assert_eq!(reply.src, "n1");
            assert_eq!(reply.dest, "c1");
            assert_eq!(reply.body.id, Some(1));
            assert_eq!(reply.body.in_reply_to, Some(7));
            assert_eq!(reply.body.payload, LogPayload::Poll { offsets: vec![("k".to_string(), 0)] });
        }
        _ => panic!("a poll is a request"),
    }
    assert_eq!(ids.next, 2);
}

#[test]
fn other_events_are_idle() {
    let mut ids = IdCounter::new();
    assert!(matches!(route::<()>(Event::Eof, &mut ids), Routed::Idle));
    assert!(matches!(route(Event::Injected(()), &mut ids), Routed::Idle));
    assert_eq!(ids.next, 1);
    for payload in [
        LogPayload::SendOk { offset: 1 },
        LogPayload::CommitOffsetsOk,
        LogPayload::ReadOk { value: 1 },
        LogPayload::Error { code: 1, text: "x".to_string() },
        LogPayload::CasOk,
        LogPayload::WriteOk,
    ] {
        assert!(matches!(route::<()>(Event::Message(request(payload)), &mut ids), Routed::Idle));
    }
    assert_eq!(ids.next, 7);
    for payload in [
        LogPayload::Send { key: "k".to_string(), msg: 1 },
        LogPayload::CommitOffsets { offsets: vec![] },
        LogPayload::ListCommittedOffsets { keys: vec![] },
    ] {
        assert!(matches!(
            route::<()>(Event::Message(request(payload)), &mut ids),
            Routed::Request { .. }
        ));
    }
}

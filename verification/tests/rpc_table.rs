use gossip_glomers::message::{Body, IdCounter, Message};
use gossip_glomers::rpc::{RpcError, RpcTable};

#[test]
fn id_counter_starts_at_one_and_counts_up() {
    let mut ids = IdCounter::new();
    assert_eq!(ids.take(), 1);
    assert_eq!(ids.take(), 2);
    assert_eq!(ids.take(), 3);
    assert_eq!(ids.next, 4);
}

#[test]
fn id_counter_wraps() {
    let mut ids = IdCounter { next: u64::MAX };
    assert_eq!(ids.take(), u64::MAX);
    assert_eq!(ids.take(), 0);
}

#[test]
fn reply_swaps_ends_and_correlates() {
    let mut ids = IdCounter::new();
    let m = Message {
        src: "c3".to_string(),
        dest: "n2".to_string(),
        body: Body { id: Some(41), in_reply_to: None, payload: 5u8 },
    };
    assert!(!m.is_reply());
    let r = m.into_reply(&mut ids);
    assert_eq!(r.src, "n2");
    assert_eq!(r.dest, "c3");
    assert_eq!(r.body.id, Some(1));
    assert_eq!(r.body.in_reply_to, Some(41));
    assert_eq!(r.body.payload, 5u8);
    assert!(r.is_reply());
    let again = r.into_reply(&mut ids);
    assert_eq!(again.body.id, Some(2));
    assert_eq!(again.body.in_reply_to, Some(1));
}

#[test]
fn reply_to_a_request_without_id() {
    let mut ids = IdCounter::new();
    let m = Message {
        src: "a".to_string(),
        dest: "b".to_string(),
        body: Body { id: None, in_reply_to: None, payload: () },
    };
    let r = m.into_reply(&mut ids);
    assert_eq!(r.body.in_reply_to, None);
    assert!(!r.is_reply());
}

#[test]
fn a_call_completes_exactly_once() {
    let mut table: RpcTable<&str> = RpcTable::new();
    assert_eq!(table.register(5, "five"), None);
    assert_eq!(table.register(6, "six"), None);
    assert!(table.is_outstanding(5));
    assert_eq!(table.complete(5), Ok("five"));
    assert!(!table.is_outstanding(5));
    assert_eq!(table.complete(5), Err(RpcError::UnknownReply { id: 5 }));
    assert!(table.is_outstanding(6));
    assert_eq!(table.complete(6), Ok("six"));
}

#[test]
fn an_unasked_reply_is_reported() {
    let mut table: RpcTable<u8> = RpcTable::new();
    assert_eq!(table.complete(9), Err(RpcError::UnknownReply { id: 9 }));
    assert!(!table.is_outstanding(9));
}

#[test]
fn registering_twice_hands_back_the_old_slot() {
    let mut table: RpcTable<u8> = RpcTable::new();
    assert_eq!(table.register(1, 10), None);
    assert_eq!(table.register(1, 20), Some(10));
    assert_eq!(table.complete(1), Ok(20));
}

#[test]
fn begin_call_registers_before_it_returns() {
    let mut table: RpcTable<u8> = RpcTable::new();
    let mut ids = IdCounter::new();
    let m = table.begin_call(&mut ids, &"n1".to_string(), &"lin-kv".to_string(), "read", 1);
    assert_eq!(m.src, "n1");
    assert_eq!(m.dest, "lin-kv");
    assert_eq!(m.body.id, Some(1));
    assert_eq!(m.body.in_reply_to, None);
    assert_eq!(m.body.payload, "read");
    assert!(table.is_outstanding(1));
    let m2 = table.begin_call(&mut ids, &"n1".to_string(), &"seq-kv".to_string(), "write", 2);
    assert_eq!(m2.body.id, Some(2));
    assert_eq!(table.complete(2), Ok(2));
    assert_eq!(table.complete(1), Ok(1));
}

use gossip_glomers::kv::{KvRequest, Store};
use gossip_glomers::log::{Dispatch, LogNode, LogPayload};
use gossip_glomers::message::{Body, Event, Message};
use gossip_glomers::rpc::RpcError;

fn reply_to(id: u64, payload: LogPayload) -> Event<LogPayload, ()> {
    Event::Message(Message {
        src: "lin-kv".to_string(),
        dest: "n1".to_string(),
        body: Body { id: Some(500), in_reply_to: Some(id), payload },
    })
}

#[test]
fn call_registers_and_addresses_the_service() {
    let mut node: LogNode<&str> = LogNode::from_init("n1".to_string());
    let m = node.call(Store::Linearizable, KvRequest::Read { key: "latest:k".to_string() }, "a");
    assert_eq!(m.src, "n1");
    assert_eq!(m.dest, "lin-kv");
    assert_eq!(m.body.id, Some(1));
    assert_eq!(m.body.in_reply_to, None);
    assert_eq!(m.body.payload, LogPayload::Read { key: "latest:k".to_string() });
    assert!(node.rpc.is_outstanding(1));
    let m = node.call(
        Store::Sequential,
        KvRequest::Write { key: "k:0".to_string(), value: 3 },
        "b",
    );
    assert_eq!(m.dest, "seq-kv");
    assert_eq!(m.body.id, Some(2));
    assert!(node.rpc.is_outstanding(2));
}

#[test]
fn reply_completes_its_call_once() {
    let mut node: LogNode<&str> = LogNode::from_init("n1".to_string());
    node.call(Store::Linearizable, KvRequest::Read { key: "a".to_string() }, "first");
    node.call(Store::Linearizable, KvRequest::Read { key: "b".to_string() }, "second");
    match node.handle(reply_to(2, LogPayload::ReadOk { value: 8 })) {
        Ok(Dispatch::Complete { slot, message }) => {
            assert_eq!(slot, "second");
            assert_eq!(message.body.payload, LogPayload::ReadOk { value: 8 });
        }
        _ => panic!("the reply belongs to the second call"),
    }
    assert!(node.rpc.is_outstanding(1));
    assert!(!node.rpc.is_outstanding(2));
    match node.handle(reply_to(2, LogPayload::ReadOk { value: 8 })) {
        Err(e) => assert_eq!(e, RpcError::UnknownReply { id: 2 }),
        Ok(_) => panic!("a second reply finds no call"),
    }
    // replies use up no identifier
    assert_eq!(node.ids.next, 3);
}

#[test]
fn reply_to_nothing_is_reported() {
    let mut node: LogNode<u8> = LogNode::from_init("n1".to_string());
    match node.handle(reply_to(77, LogPayload::CasOk)) {
        Err(e) => assert_eq!(e, RpcError::UnknownReply { id: 77 }),
        Ok(_) => panic!("no call was made"),
    }
}

#[test]
fn request_with_reply_marker_is_never_served() {
    let mut node: LogNode<u8> = LogNode::from_init("n1".to_string());
    node.call(Store::Linearizable, KvRequest::Read { key: "a".to_string() }, 1);
    let r = node.handle(reply_to(1, LogPayload::Send { key: "k".to_string(), msg: 1 }));
    assert!(matches!(r, Ok(Dispatch::Complete { slot: 1, .. })));
}

#[test]
fn send_request_is_served_with_a_fresh_id() {
    let mut node: LogNode<u8> = LogNode::from_init("n1".to_string());
    let m: Event<LogPayload, ()> = Event::Message(Message {
        src: "c2".to_string(),
        dest: "n1".to_string(),
        body: Body {
            id: Some(3),
            in_reply_to: None,
            payload: LogPayload::Send { key: "k".to_string(), msg: 1 },
        },
    });
    match node.handle(m) {
        Ok(Dispatch::Serve { reply }) => {
            assert_eq!(reply.src, "n1");
            assert_eq!(reply.dest, "c2");
            assert_eq!(reply.body.id, Some(1));
            assert_eq!(reply.body.in_reply_to, Some(3));
        }
        _ => panic!("a send is served"),
    }
    assert!(matches!(node.handle(Event::<LogPayload, ()>::Eof), Ok(Dispatch::Idle)));
    assert_eq!(node.ids.next, 2);
}

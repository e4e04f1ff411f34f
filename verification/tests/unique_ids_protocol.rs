use gossip_glomers::message::{Body, Event, Message};
use gossip_glomers::unique_ids::{make_guid, IdPayload, UniqueIdsNode};

fn generate(id: u64) -> Event<IdPayload, ()> {
    Event::Message(Message {
        src: "c1".to_string(),
        dest: "n3".to_string(),
        body: Body { id: Some(id), in_reply_to: None, payload: IdPayload::Generate },
    })
}

#[test]
fn generated_ids_carry_name_and_counter() {
    let mut n = UniqueIdsNode::from_init("n3".to_string());
    let first = n.handle(generate(10)).unwrap();
    assert_eq!(first.src, "n3");
    assert_eq!(first.dest, "c1");
    assert_eq!(first.body.id, Some(1));
    assert_eq!(first.body.in_reply_to, Some(10));
    assert_eq!(first.body.payload, IdPayload::GenerateOk { guid: "n3-2".to_string() });
    let second = n.handle(generate(11)).unwrap();
    assert_eq!(second.body.payload, IdPayload::GenerateOk { guid: "n3-3".to_string() });
}

#[test]
fn generate_ok_is_passed_over() {
    let mut n = UniqueIdsNode::from_init("n3".to_string());
    let m: Event<IdPayload, ()> = Event::Message(Message {
        src: "c1".to_string(),
        dest: "n3".to_string(),
        body: Body {
            id: Some(1),
            in_reply_to: None,
            payload: IdPayload::GenerateOk { guid: "x".to_string() },
        },
    });
    assert_eq!(n.handle(m), None);
    assert_eq!(n.ids.next, 2);
}

#[test]
fn guid_text_is_name_hyphen_number() {
    assert_eq!(make_guid(&"node".to_string(), 0), "node-0");
    assert_eq!(make_guid(&"".to_string(), u64::MAX), "-18446744073709551615");
}

#[test]
fn end_of_input_is_a_no_op() {
    let mut n = UniqueIdsNode::from_init("n3".to_string());
    assert_eq!(n.handle(Event::<IdPayload, ()>::Eof), None);
    assert_eq!(n.handle(Event::<IdPayload, u8>::Injected(4)), None);
    assert_eq!(n.ids.next, 1);
    assert_eq!(n.node, "n3");
    let first = n.handle(generate(10)).unwrap();
    assert_eq!(first.body.id, Some(1));
    assert_eq!(first.body.payload, IdPayload::GenerateOk { guid: "n3-2".to_string() });
}

use vortex::broadcast::{BroadcastNode, Data as BroadcastData};
use vortex::echo::{Data as EchoData, EchoNode};
use vortex::message::{Message, MessageError, Payload};
use vortex::node::{Node, StateMachine};
use vortex::unique_ids::{Data as IdsData, UniqueIdsNode};

#[test]
fn echo_answers_with_the_same_text() {
    let mut node = EchoNode::new();
    let request = Message {
        src: "c1".to_string(),
        dest: "n1".to_string(),
        body: Payload::Custom(EchoData::Echo { msg_id: 3, echo: "hello there".to_string() }),
    };
    let responses = node.apply(vec![request]).unwrap();
    assert_eq!(responses.len(), 1);
    assert_eq!(responses[0].src, "n1");
    assert_eq!(responses[0].dest, "c1");
    match &responses[0].body {
        Payload::Custom(EchoData::EchoOk { msg_id, in_reply_to, echo }) => {
            assert_eq!(*msg_id, 1);
            assert_eq!(*in_reply_to, 3);
            assert_eq!(echo, "hello there");
        }
        _ => panic!("expected an echo_ok reply"),
    }
    assert_eq!(node.ids_drawn(), 1);
}

#[test]
fn echo_ignores_other_payloads() {
    let mut node = EchoNode::new();
    let request = Message {
        src: "c1".to_string(),
        dest: "n1".to_string(),
        body: Payload::InitOk { in_reply_to: 1 },
    };
    let responses = node.apply(vec![request]).unwrap();
    assert_eq!(responses.len(), 0);
}

#[test]
fn unique_ids_are_node_qualified_and_increasing() {
    let mut node = UniqueIdsNode::new("n1");
    let request = |msg_id: usize| Message {
        src: "c1".to_string(),
        dest: "n1".to_string(),
        body: Payload::Custom(IdsData::Generate { msg_id }),
    };
    let first = node.apply(vec![request(10)]).unwrap();
    let second = node.apply(vec![request(11)]).unwrap();
    match (&first[0].body, &second[0].body) {
        (
            Payload::Custom(IdsData::GenerateOk { id: id1, in_reply_to: r1, .. }),
            Payload::Custom(IdsData::GenerateOk { id: id2, in_reply_to: r2, .. }),
        ) => {
            assert_eq!(id1, "n1/1");
            assert_eq!(id2, "n1/2");
            assert_eq!(*r1, 10);
            assert_eq!(*r2, 11);
        }
        _ => panic!("expected two generate_ok replies"),
    }
    assert_eq!(node.ids_drawn(), 2);
}

#[test]
fn init_builds_the_node_and_replies_init_ok() {
    let init = Message {
        src: "c0".to_string(),
        dest: "n1".to_string(),
        body: Payload::Init {
            msg_id: 1,
            node_id: "n1".to_string(),
            node_ids: vec!["n1".to_string(), "n2".to_string()],
        },
    };
    let (mut node, resp) = Node::init(init, BroadcastNode::new("n1")).unwrap();
    assert_eq!(resp.src, "n1");
    assert_eq!(resp.dest, "c0");
    assert!(matches!(resp.body, Payload::InitOk { in_reply_to: 1 }));

    let broadcast = Message {
        src: "c1".to_string(),
        dest: "n1".to_string(),
        body: Payload::Custom(BroadcastData::Broadcast { msg_id: 2, message: 9 }),
    };
    let responses = node.recv_messages(vec![broadcast]).unwrap();
    assert_eq!(responses.len(), 1);
    assert!(matches!(
        responses[0].body,
        Payload::Custom(BroadcastData::BroadcastOk { in_reply_to: 2, .. })
    ));
}

#[test]
fn init_rejects_any_other_message() {
    let not_init: Message<BroadcastData> = Message {
        src: "c0".to_string(),
        dest: "n1".to_string(),
        body: Payload::Custom(BroadcastData::Read { msg_id: 1 }),
    };
    let err = Node::init(not_init, BroadcastNode::new("n1")).map(|_| ()).unwrap_err();
    assert_eq!(err, MessageError::Invalid);
    assert_eq!(err.describe(), "invalid message");
}

#[test]
fn batches_are_applied_in_arrival_order() {
    let init = Message {
        src: "c0".to_string(),
        dest: "n1".to_string(),
        body: Payload::Init { msg_id: 1, node_id: "n1".to_string(), node_ids: vec![] },
    };
    let (mut node, _) = Node::init(init, BroadcastNode::new("n1")).unwrap();
    let custom = |body: BroadcastData| Message {
        src: "c1".to_string(),
        dest: "n1".to_string(),
        body: Payload::Custom(body),
    };
    let batch = vec![
        custom(BroadcastData::Broadcast { msg_id: 2, message: 5 }),
        custom(BroadcastData::Broadcast { msg_id: 3, message: 6 }),
        custom(BroadcastData::Read { msg_id: 4 }),
    ];
    let responses = node.recv_messages(batch).unwrap();
    assert_eq!(responses.len(), 3);
    match &responses[2].body {
        Payload::Custom(BroadcastData::ReadOk { messages, in_reply_to, .. }) => {
            assert_eq!(*in_reply_to, 4);
            assert_eq!(messages, &vec![5, 6]);
        }
        _ => panic!("expected the read_ok reply last"),
    }
}

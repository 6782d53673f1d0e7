use vortex::broadcast::{BroadcastNode, Data};
use vortex::message::{Message, Payload};

fn custom(src: &str, dest: &str, body: Data) -> Message<Data> {
    Message { src: src.to_string(), dest: dest.to_string(), body: Payload::Custom(body) }
}

fn topology(src: &str, dest: &str, msg_id: usize, entries: &[(&str, &[&str])]) -> Message<Data> {
    let topology = entries
        .iter()
        .map(|(k, vs)| (k.to_string(), vs.iter().map(|v| v.to_string()).collect()))
        .collect();
    custom(src, dest, Data::Topology { msg_id, topology })
}

fn gossip_destinations(out: &[Message<Data>]) -> Vec<String> {
    out.iter()
        .filter(|m| matches!(m.body, Payload::Custom(Data::Broadcast { .. })))
        .map(|m| m.dest.clone())
        .collect()
}

fn ack_count(out: &[Message<Data>]) -> usize {
    out.iter()
        .filter(|m| matches!(m.body, Payload::Custom(Data::BroadcastOk { .. })))
        .count()
}

#[test]
fn dedup_adds_once_floods_once_acks_each_delivery() {
    let mut node = BroadcastNode::new("n1");
    let out = node.step(&topology("c0", "n1", 1, &[("n1", &["n2", "n3"])]));
    assert_eq!(out.len(), 1);

    let first = node.step(&custom("c1", "n1", Data::Broadcast { msg_id: 5, message: 7 }));
    assert_eq!(gossip_destinations(&first), vec!["n2".to_string(), "n3".to_string()]);
    assert_eq!(ack_count(&first), 1);

    let second = node.step(&custom("c1", "n1", Data::Broadcast { msg_id: 6, message: 7 }));
    assert_eq!(gossip_destinations(&second).len(), 0);
    assert_eq!(ack_count(&second), 1);

    let third = node.step(&custom("c1", "n1", Data::Broadcast { msg_id: 7, message: 7 }));
    assert_eq!(gossip_destinations(&third).len(), 0);
    assert_eq!(ack_count(&third), 1);

    assert_eq!(node.values(), vec![7]);
    // one id for the topology ack, three for the floods and the first ack,
    // one each for the two duplicate acks
    assert_eq!(node.ids_drawn(), 6);
}

#[test]
fn no_bounce_to_sender_or_own_identity() {
    let mut node = BroadcastNode::new("n1");
    node.step(&topology("c0", "n1", 1, &[("n1", &["n1", "n2", "n3"])]));

    let out = node.step(&custom("n2", "n1", Data::Broadcast { msg_id: 2, message: 42 }));
    let dests = gossip_destinations(&out);
    assert!(!dests.contains(&"n2".to_string()));
    assert!(!dests.contains(&"n1".to_string()));
    assert_eq!(dests, vec!["n3".to_string()]);
}

#[test]
fn read_returns_all_values_any_order() {
    for order in [[3usize, 1, 4], [4, 3, 1], [1, 4, 3]] {
        let mut node = BroadcastNode::new("n1");
        for (k, v) in order.iter().enumerate() {
            node.step(&custom("c1", "n1", Data::Broadcast { msg_id: k, message: *v }));
        }
        let out = node.step(&custom("c1", "n1", Data::Read { msg_id: 9 }));
        assert_eq!(out.len(), 1);
        match &out[0].body {
            Payload::Custom(Data::ReadOk { in_reply_to, messages, .. }) => {
                assert_eq!(*in_reply_to, 9);
                let mut sorted = messages.clone();
                sorted.sort();
                assert_eq!(sorted, vec![1, 3, 4]);
            }
            other => panic!("expected a read_ok reply, got {:?}", message_tag(other)),
        }
    }
}

fn message_tag(p: &Payload<Data>) -> &'static str {
    match p {
        Payload::Init { .. } => "init",
        Payload::InitOk { .. } => "init_ok",
        Payload::Error { .. } => "error",
        Payload::Custom(Data::Broadcast { .. }) => "broadcast",
        Payload::Custom(Data::BroadcastOk { .. }) => "broadcast_ok",
        Payload::Custom(Data::Read { .. }) => "read",
        Payload::Custom(Data::ReadOk { .. }) => "read_ok",
        Payload::Custom(Data::Topology { .. }) => "topology",
        Payload::Custom(Data::TopologyOk { .. }) => "topology_ok",
    }
}

#[test]
fn topology_assignment_replaces_previous_list() {
    let mut node = BroadcastNode::new("n1");
    node.step(&topology("c0", "n1", 1, &[("n1", &["n2", "n3"])]));
    assert_eq!(node.neighbor_ids(), vec!["n2".to_string(), "n3".to_string()]);

    let out = node.step(&topology("c0", "n1", 2, &[("n1", &["n4"]), ("n2", &["n1"])]));
    assert_eq!(node.neighbor_ids(), vec!["n4".to_string()]);
    assert_eq!(out.len(), 1);
    assert!(matches!(out[0].body, Payload::Custom(Data::TopologyOk { in_reply_to: 2, .. })));
}

#[test]
fn topology_without_own_entry_leaves_no_neighbors() {
    let mut node = BroadcastNode::new("n1");
    node.step(&topology("c0", "n1", 1, &[("n2", &["n1"])]));
    assert_eq!(node.neighbor_ids(), Vec::<String>::new());

    let out = node.step(&custom("c1", "n1", Data::Broadcast { msg_id: 2, message: 3 }));
    assert_eq!(gossip_destinations(&out).len(), 0);
    assert_eq!(ack_count(&out), 1);
    assert_eq!(node.values(), vec![3]);
}

#[test]
fn retry_resends_until_latest_ack_arrives() {
    let mut node = BroadcastNode::new("n1");
    node.step(&topology("c0", "n1", 1, &[("n1", &["n2"])]));
    let out = node.step(&custom("c1", "n1", Data::Broadcast { msg_id: 2, message: 7 }));
    let first_id = match &out[0].body {
        Payload::Custom(Data::Broadcast { msg_id, message }) => {
            assert_eq!(*message, 7);
            *msg_id
        }
        other => panic!("expected a flood, got {:?}", message_tag(other)),
    };

    // The flood is lost: no acknowledgement arrives, the entry persists.
    assert_eq!(node.outstanding().len(), 1);
    assert_eq!(node.outstanding()[0].msg_id, first_id);

    // A retry tick re-sends the value to the same neighbor under a fresh id.
    let resent = node.retry_tick();
    assert_eq!(resent.len(), 1);
    let retry_id = match &resent[0].body {
        Payload::Custom(Data::Broadcast { msg_id, message }) => {
            assert_eq!(*message, 7);
            assert_eq!(resent[0].dest, "n2");
            *msg_id
        }
        other => panic!("expected a re-sent flood, got {:?}", message_tag(other)),
    };
    assert!(retry_id > first_id);
    assert_eq!(node.outstanding().len(), 1);
    assert_eq!(node.outstanding()[0].msg_id, retry_id);

    // An acknowledgement for the stale id clears nothing.
    node.step(&custom("n2", "n1", Data::BroadcastOk { msg_id: 1, in_reply_to: first_id }));
    assert_eq!(node.outstanding().len(), 1);

    // The acknowledgement for the latest id empties the buffer.
    node.step(&custom("n2", "n1", Data::BroadcastOk { msg_id: 2, in_reply_to: retry_id }));
    assert_eq!(node.outstanding().len(), 0);
}

#[test]
fn retry_with_empty_buffer_emits_nothing() {
    let mut node = BroadcastNode::new("n1");
    assert_eq!(node.retry_tick().len(), 0);
    assert_eq!(node.outstanding().len(), 0);
}

#[test]
fn unknown_ack_is_ignored() {
    let mut node = BroadcastNode::new("n1");
    let out = node.step(&custom("n2", "n1", Data::BroadcastOk { msg_id: 1, in_reply_to: 99 }));
    assert_eq!(out.len(), 0);
    assert_eq!(node.outstanding().len(), 0);
}

#[test]
fn three_node_value_reaches_the_far_edge() {
    let mut a = BroadcastNode::new("a");
    let mut b = BroadcastNode::new("b");
    let mut c = BroadcastNode::new("c");
    let assignment: &[(&str, &[&str])] = &[("a", &["b"]), ("b", &["a", "c"]), ("c", &["b"])];
    a.step(&topology("c0", "a", 1, assignment));
    b.step(&topology("c0", "b", 1, assignment));
    c.step(&topology("c0", "c", 1, assignment));

    // The client broadcasts 7 to a; a floods to b only.
    let from_a = a.step(&custom("c1", "a", Data::Broadcast { msg_id: 2, message: 7 }));
    let a_floods: Vec<&Message<Data>> = from_a
        .iter()
        .filter(|m| matches!(m.body, Payload::Custom(Data::Broadcast { .. })))
        .collect();
    assert_eq!(a_floods.len(), 1);
    assert_eq!(a_floods[0].dest, "b");

    // b excludes the sender a and floods to c only, and acknowledges to a.
    let from_b = b.step(a_floods[0]);
    assert_eq!(gossip_destinations(&from_b), vec!["c".to_string()]);
    assert_eq!(ack_count(&from_b), 1);
    let b_flood = from_b
        .iter()
        .find(|m| matches!(m.body, Payload::Custom(Data::Broadcast { .. })))
        .unwrap();
    let b_ack = from_b
        .iter()
        .find(|m| matches!(m.body, Payload::Custom(Data::BroadcastOk { .. })))
        .unwrap();

    // c has only b as neighbor, so it floods nowhere and acknowledges to b.
    let from_c = c.step(b_flood);
    assert_eq!(gossip_destinations(&from_c).len(), 0);
    assert_eq!(ack_count(&from_c), 1);
    let c_ack = from_c
        .iter()
        .find(|m| matches!(m.body, Payload::Custom(Data::BroadcastOk { .. })))
        .unwrap();

    // The acknowledgements flow back and clear both retry buffers.
    b.step(c_ack);
    a.step(b_ack);
    assert_eq!(a.outstanding().len(), 0);
    assert_eq!(b.outstanding().len(), 0);

    // A read on c returns {7}.
    let read = c.step(&custom("c2", "c", Data::Read { msg_id: 3 }));
    match &read[0].body {
        Payload::Custom(Data::ReadOk { messages, .. }) => assert_eq!(messages, &vec![7]),
        other => panic!("expected a read_ok reply, got {:?}", message_tag(other)),
    }
}

#[test]
fn gossip_before_topology_acks_without_flooding() {
    let mut node = BroadcastNode::new("n1");
    let out = node.step(&custom("c1", "n1", Data::Broadcast { msg_id: 1, message: 11 }));
    assert_eq!(gossip_destinations(&out).len(), 0);
    assert_eq!(ack_count(&out), 1);
    assert_eq!(node.values(), vec![11]);
    assert_eq!(node.id_str(), "n1");
}

#[test]
fn replies_come_from_the_addressed_identity() {
    let mut node = BroadcastNode::new("n1");
    let out = node.step(&custom("c1", "alias", Data::Read { msg_id: 4 }));
    assert_eq!(out[0].src, "alias");
    assert_eq!(out[0].dest, "c1");
}

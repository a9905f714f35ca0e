use duststorm::broadcast::{Broadcast, BroadcastNode, BroadcastOk, Outbound, TopologyEntry};
use duststorm::message::{Body, CommonBody, Init, Message, Meta};

fn meta(src: &str, dest: &str) -> Meta {
    Meta { src: String::from(src), dest: String::from(dest) }
}

fn common(msg_id: Option<u16>) -> CommonBody {
    CommonBody { msg_id, in_reply_to: None }
}

fn request(src: &str, dest: &str, msg_id: Option<u16>, custom: Broadcast) -> Message<Broadcast> {
    Message { meta: meta(src, dest), body: Body { common: common(msg_id), custom } }
}

/// A node that has completed the handshake as `id` with the given neighbors.
fn node_with(id: &str, neighbors: &[&str]) -> BroadcastNode {
    let mut node = BroadcastNode::new();
    let init = Message {
        meta: meta("c", id),
        body: Body {
            common: common(Some(1)),
            custom: Init { node_id: String::from(id), node_ids: vec![String::from(id)] },
        },
    };
    node.handle_init(&init);
    let entries = vec![TopologyEntry {
        node: String::from(id),
        neighbors: neighbors.iter().map(|n| String::from(*n)).collect(),
    }];
    let topo = request("c", id, Some(2), Broadcast::Topology { topology: entries });
    let out = node.handle(&topo);
    assert_eq!(out.len(), 1);
    node
}

fn pending_for(node: &BroadcastNode, v: i32) -> Option<Vec<String>> {
    node.statuses
        .iter()
        .find(|s| s.value == v)
        .map(|s| s.nodes.clone())
}

#[test]
fn broadcast_is_idempotent() {
    let mut node = node_with("n1", &["n2"]);
    let first = node.handle(&request("c", "n1", Some(3), Broadcast::Broadcast { message: 5 }));
    let second = node.handle(&request("c", "n1", Some(4), Broadcast::Broadcast { message: 5 }));
    assert_eq!(node.messages, vec![5]);
    // The first delivery gossips to the neighbor and answers; the duplicate
    // only answers.
    assert_eq!(first.len(), 2);
    assert_eq!(second.len(), 1);
    assert!(matches!(
        second[0].body.custom,
        Outbound::Reply(BroadcastOk::BroadcastOk)
    ));
    // Pending state is exactly what one delivery seeds.
    assert_eq!(pending_for(&node, 5), Some(vec![String::from("n2")]));
}

#[test]
fn duplicate_gossip_single_addition() {
    // Scenario: the same gossip arrives twice in a row.
    let mut node = node_with("n1", &["n2"]);
    let gossip = || {
        request("n2", "n1", None, Broadcast::Gossip { message: 7, recipients: Vec::new() })
    };
    let out1 = node.handle(&gossip());
    let out2 = node.handle(&gossip());
    assert_eq!(node.messages, vec![7]);
    // Each delivery is acknowledged towards n2.
    for out in [&out1, &out2] {
        let ack = out.last().unwrap();
        assert_eq!(ack.meta.src, "n1");
        assert_eq!(ack.meta.dest, "n2");
        match &ack.body.custom {
            Outbound::Request(Broadcast::GossipOk { node_id, message }) => {
                assert_eq!(node_id, "n1");
                assert_eq!(*message, 7);
            }
            other => panic!("expected a gossip acknowledgment, got {:?}", discriminant_name(other)),
        }
    }
    // The sender is excluded from the seeded pending set, and the only
    // neighbor is the sender, so nothing is pending and nothing is forwarded.
    assert_eq!(out1.len(), 1);
    assert_eq!(pending_for(&node, 7), Some(Vec::new()));
}

fn discriminant_name(o: &Outbound) -> &'static str {
    match o {
        Outbound::InitOk(_) => "init_ok",
        Outbound::Request(_) => "request",
        Outbound::Reply(_) => "reply",
        Outbound::Error(_) => "error",
    }
}

#[test]
fn gossip_seeds_and_forwards_around_hint_and_sender() {
    let mut node = node_with("n1", &["n2", "n3", "n4"]);
    let out = node.handle(&request(
        "n2",
        "n1",
        None,
        Broadcast::Gossip { message: 7, recipients: vec![String::from("n3")] },
    ));
    // Forward only to n4: n3 is hinted, n2 is the sender; then the ack.
    assert_eq!(out.len(), 2);
    assert_eq!(out[0].meta.src, "n1");
    assert_eq!(out[0].meta.dest, "n4");
    match &out[0].body.custom {
        Outbound::Request(Broadcast::Gossip { message, recipients }) => {
            assert_eq!(*message, 7);
            // The widened hint: incoming hint, then own neighbors, then the sender.
            assert_eq!(recipients, &vec![
                String::from("n3"),
                String::from("n2"),
                String::from("n3"),
                String::from("n4"),
                String::from("n2"),
            ]);
        }
        other => panic!("expected a forwarded gossip, got {:?}", discriminant_name(other)),
    }
    assert_eq!(pending_for(&node, 7), Some(vec![String::from("n4")]));
}

#[test]
fn gossip_ok_unknown_is_noop() {
    // Scenario: an acknowledgment for a value never pending towards anyone.
    let mut node = node_with("n1", &["n2"]);
    let out = node.handle(&request(
        "n2",
        "n1",
        None,
        Broadcast::GossipOk { node_id: String::from("n2"), message: 42 },
    ));
    assert!(out.is_empty());
    assert!(node.messages.is_empty());
    assert!(node.statuses.is_empty());
}

#[test]
fn ack_clears_only_matching_value_and_neighbor() {
    let mut node = node_with("n1", &["n2", "n3"]);
    node.handle(&request("c", "n1", Some(3), Broadcast::Broadcast { message: 1 }));
    node.handle(&request("c", "n1", Some(4), Broadcast::Broadcast { message: 2 }));
    assert_eq!(pending_for(&node, 1), Some(vec![String::from("n2"), String::from("n3")]));
    assert_eq!(pending_for(&node, 2), Some(vec![String::from("n2"), String::from("n3")]));
    // n2 acknowledges value 1: only that pair is cleared.
    node.handle(&request(
        "n2",
        "n1",
        None,
        Broadcast::GossipOk { node_id: String::from("n2"), message: 1 },
    ));
    assert_eq!(pending_for(&node, 1), Some(vec![String::from("n3")]));
    assert_eq!(pending_for(&node, 2), Some(vec![String::from("n2"), String::from("n3")]));
    // A repeated acknowledgment is absorbed.
    node.handle(&request(
        "n2",
        "n1",
        None,
        Broadcast::GossipOk { node_id: String::from("n2"), message: 1 },
    ));
    assert_eq!(pending_for(&node, 1), Some(vec![String::from("n3")]));
}

#[test]
fn read_returns_all_values_once() {
    let mut node = node_with("n1", &["n2"]);
    node.handle(&request("c", "n1", Some(3), Broadcast::Broadcast { message: 42 }));
    node.handle(&request(
        "n2",
        "n1",
        None,
        Broadcast::Gossip { message: 7, recipients: Vec::new() },
    ));
    node.handle(&request("c", "n1", Some(5), Broadcast::Broadcast { message: 42 }));
    let out = node.handle(&request("c", "n1", Some(4), Broadcast::Read));
    assert_eq!(out.len(), 1);
    assert_eq!(out[0].body.common.in_reply_to, Some(4));
    match &out[0].body.custom {
        Outbound::Reply(BroadcastOk::ReadOk { messages }) => {
            let mut sorted = messages.clone();
            sorted.sort();
            assert_eq!(sorted, vec![7, 42]);
        }
        other => panic!("expected read_ok, got {:?}", discriminant_name(other)),
    }
}

#[test]
fn tick_resends_to_every_pending_neighbor() {
    let mut node = node_with("n1", &["n2", "n3"]);
    node.handle(&request("c", "n1", Some(3), Broadcast::Broadcast { message: 9 }));
    node.handle(&request(
        "n3",
        "n1",
        None,
        Broadcast::GossipOk { node_id: String::from("n3"), message: 9 },
    ));
    let out = node.on_tick();
    // Only n2 is still pending for 9.
    assert_eq!(out.len(), 1);
    assert_eq!(out[0].meta.src, "n1");
    assert_eq!(out[0].meta.dest, "n2");
    match &out[0].body.custom {
        Outbound::Request(Broadcast::Gossip { message, recipients }) => {
            assert_eq!(*message, 9);
            // A resend hints the current neighbor list.
            assert_eq!(recipients, &vec![String::from("n2"), String::from("n3")]);
        }
        other => panic!("expected a resend gossip, got {:?}", discriminant_name(other)),
    }
}

#[test]
fn tick_after_all_acked_is_silent() {
    let mut node = node_with("n1", &["n2"]);
    node.handle(&request("c", "n1", Some(3), Broadcast::Broadcast { message: 9 }));
    node.handle(&request(
        "n2",
        "n1",
        None,
        Broadcast::GossipOk { node_id: String::from("n2"), message: 9 },
    ));
    assert!(node.on_tick().is_empty());
}

#[test]
fn topology_replaces_neighbor_list() {
    let mut node = node_with("n1", &["n2"]);
    let entries = vec![
        TopologyEntry { node: String::from("n9"), neighbors: vec![String::from("n1")] },
        TopologyEntry { node: String::from("n1"), neighbors: vec![String::from("n5")] },
    ];
    let out = node.handle(&request("c", "n1", Some(9), Broadcast::Topology { topology: entries }));
    assert_eq!(node.neighbors, vec![String::from("n5")]);
    assert_eq!(out.len(), 1);
    assert_eq!(out[0].body.common.in_reply_to, Some(9));
    assert!(matches!(out[0].body.custom, Outbound::Reply(BroadcastOk::TopologyOk)));
}

#[test]
fn topology_without_own_entry_clears_neighbors() {
    let mut node = node_with("n1", &["n2"]);
    let entries = vec![TopologyEntry {
        node: String::from("n9"),
        neighbors: vec![String::from("n1")],
    }];
    node.handle(&request("c", "n1", Some(9), Broadcast::Topology { topology: entries }));
    assert!(node.neighbors.is_empty());
}

//! A small simulated network: the eager gossip round is lost entirely, and
//! the retry ticks alone must spread a value over a line topology and drain
//! every pending-acknowledgment set.

use duststorm::broadcast::{Broadcast, Outbound, TopologyEntry};
use duststorm::message::{Body, CommonBody, Init, Message, Meta};
use duststorm::runtime::{Event, Inbound, Server};

const NAMES: [&str; 3] = ["n1", "n2", "n3"];

fn envelope(src: &str, dest: &str, msg_id: Option<u16>, custom: Inbound) -> Event {
    Event::Message(Message {
        meta: Meta { src: String::from(src), dest: String::from(dest) },
        body: Body { common: CommonBody { msg_id, in_reply_to: None }, custom },
    })
}

fn full_topology() -> Vec<TopologyEntry> {
    vec![
        TopologyEntry { node: String::from("n1"), neighbors: vec![String::from("n2")] },
        TopologyEntry {
            node: String::from("n2"),
            neighbors: vec![String::from("n1"), String::from("n3")],
        },
        TopologyEntry { node: String::from("n3"), neighbors: vec![String::from("n2")] },
    ]
}

/// Hand every node-to-node envelope to its destination, including those that
/// the deliveries themselves produce; answers to clients are discarded.
fn deliver_all(servers: &mut Vec<Server>, mut queue: Vec<Message<Outbound>>) {
    while let Some(m) = queue.pop() {
        let Message { meta, body } = m;
        let Body { common, custom } = body;
        if let Outbound::Request(b) = custom {
            if let Some(idx) = NAMES.iter().position(|n| *n == meta.dest) {
                let event = Event::Message(Message {
                    meta,
                    body: Body { common, custom: Inbound::Request(b) },
                });
                let out = servers[idx].step(event).unwrap();
                queue.extend(out);
            }
        }
    }
}

fn converged(servers: &[Server], v: i32) -> bool {
    servers.iter().all(|s| {
        s.node.messages.contains(&v) && s.node.statuses.iter().all(|e| e.nodes.is_empty())
    })
}

#[test]
fn convergence_despite_a_lost_round() {
    let mut servers: Vec<Server> = NAMES.iter().map(|_| Server::new()).collect();
    for (i, name) in NAMES.iter().enumerate() {
        servers[i]
            .step(envelope(
                "c",
                name,
                Some(1),
                Inbound::Init(Init {
                    node_id: String::from(*name),
                    node_ids: NAMES.iter().map(|n| String::from(*n)).collect(),
                }),
            ))
            .unwrap();
        servers[i]
            .step(envelope(
                "c",
                name,
                Some(2),
                Inbound::Request(Broadcast::Topology { topology: full_topology() }),
            ))
            .unwrap();
    }

    // Inject the value at n1 and lose every envelope of the eager round.
    let lost = servers[0]
        .step(envelope("c", "n1", Some(3), Inbound::Request(Broadcast::Broadcast { message: 42 })))
        .unwrap();
    assert!(!lost.is_empty());
    assert!(servers[1].node.messages.is_empty());
    assert!(servers[2].node.messages.is_empty());

    // The retry ticks alone must converge the cluster.
    let mut rounds = 0;
    while rounds < 5 && !converged(&servers, 42) {
        rounds += 1;
        for i in 0..NAMES.len() {
            let out = servers[i].step(Event::Tick).unwrap();
            deliver_all(&mut servers, out);
        }
    }
    assert!(converged(&servers, 42));
    for s in &servers {
        assert!(s.node.messages.contains(&42));
    }
}

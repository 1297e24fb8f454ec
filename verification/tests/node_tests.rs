use rust_p2p::address::{contains_addr, copy_addrs, PeerAddr};
use rust_p2p::fanout::{Fanout, FanoutStep};
use rust_p2p::gossip::{gossip_at_interval, GossipAction, GossipEvent, GOSSIP_INTERVAL_SECS};
use rust_p2p::message::Message;
use rust_p2p::node::{Inbound, Node};

const LOCALHOST: u32 = 0x7f00_0001;

fn local(port: u16) -> PeerAddr {
    PeerAddr::V4 { ip: LOCALHOST, port }
}

#[test]
fn test_add_peer() {
    let broadcast_addr = local(6200);
    let peer_addr = local(6201);

    let mut node = Node::new(broadcast_addr);
    node.add_peer(peer_addr);

    let peers = node.get_peers();
    assert!(peers.contains(&peer_addr));
}

#[test]
fn test_send_message() {
    let broadcast_addr = local(6202);
    let peer_addr = local(6203);

    let mut node = Node::new(broadcast_addr);
    node.add_peer(peer_addr);
    let peers = node.get_peers();
    assert_eq!(peers, vec![peer_addr]);

    let msg = Message::Text {
        from: node.id().clone(),
        content: "Message recieved!".to_string(),
    };
    let mut plan = node.send_message(&msg, &peer_addr);
    assert_eq!(plan.next_step(), FanoutStep::Send(peer_addr));
    match plan.message() {
        Message::Text { from, content } => {
            assert_eq!(*from, *node.id());
            assert_eq!(content, "Message recieved!");
        }
        Message::Handshake { .. } => panic!("a text message was expected"),
    }
    plan.record(true);
    assert_eq!(plan.next_step(), FanoutStep::Complete);
}

#[test]
fn test_recieve_message() {
    let broadcast_addr = local(6204);
    let peer_addr = local(6205);

    let mut new_node = Node::new(broadcast_addr);
    new_node.add_peer(peer_addr);
    let new_node_id = new_node.id().clone();

    let handshake_msg = Message::Handshake { id: new_node_id.clone() };
    let sender = local(50000);
    match new_node.recieve_message(sender, Some(handshake_msg)) {
        Inbound::PeerRegistered(addr) => assert_eq!(addr, sender),
        other => panic!("unexpected outcome {:?}", other),
    }
    assert_eq!(new_node.get_peers(), vec![peer_addr, sender]);

    let text_msg = Message::Text { from: new_node_id.clone(), content: "Test message".to_string() };
    match new_node.recieve_message(sender, Some(text_msg)) {
        Inbound::Forward(Message::Text { from, content }) => {
            assert_eq!(from, new_node_id);
            assert_eq!(content, "Test message");
        }
        other => panic!("unexpected outcome {:?}", other),
    }
    assert_eq!(new_node.get_peers(), vec![peer_addr, sender]);
}

#[test]
fn unparsable_bytes_are_ignored() {
    let mut node = Node::new(local(7000));
    node.add_peer(local(7001));
    assert!(matches!(node.recieve_message(local(7002), None), Inbound::Ignored));
    assert_eq!(node.get_peers(), vec![local(7001)]);
}

#[test]
fn adding_a_peer_twice_keeps_one_copy_in_order() {
    let mut node = Node::new(local(7100));
    node.add_peer(local(1));
    node.add_peer(local(2));
    node.add_peer(local(1));
    node.add_peer(local(3));
    node.add_peer(local(2));
    assert_eq!(node.get_peers(), vec![local(1), local(2), local(3)]);
}

#[test]
fn new_node_starts_without_peers() {
    let node = Node::new(local(7200));
    assert!(node.get_peers().is_empty());
    assert_eq!(node.broadcast_addr(), local(7200));
}

#[test]
fn node_id_is_a_hyphenated_v4_uuid() {
    let node = Node::new(local(7300));
    let chars: Vec<char> = node.id().chars().collect();
    assert_eq!(chars.len(), 36);
    for (j, c) in chars.iter().enumerate() {
        if j == 8 || j == 13 || j == 18 || j == 23 {
            assert_eq!(*c, '-');
        } else {
            assert!(c.is_ascii_digit() || ('a'..='f').contains(c), "{}", node.id());
        }
    }
    assert_eq!(chars[14], '4');
    assert!(['8', '9', 'a', 'b'].contains(&chars[19]));
}

#[test]
fn two_nodes_get_different_ids() {
    let a = Node::new(local(7400));
    let b = Node::new(local(7400));
    assert_ne!(a.id(), b.id());
}

#[test]
fn handshake_message_carries_the_node_id() {
    let node = Node::new(local(7500));
    assert_eq!(node.handshake_message(), Message::Handshake { id: node.id().clone() });
}

#[test]
fn printed_line_of_a_handshake() {
    let msg = Message::Handshake { id: "abc".to_string() };
    assert_eq!(msg.printed_line(), "Received Handshake with ID: abc");
}

#[test]
fn printed_line_of_a_text() {
    let msg = Message::Text { from: "n1".to_string(), content: "hello there".to_string() };
    assert_eq!(msg.printed_line(), "Received Message from n1: hello there");
}

#[test]
fn message_clone_is_equal() {
    let msg = Message::Text { from: "n1".to_string(), content: "hi".to_string() };
    assert_eq!(msg.clone(), msg);
}

#[test]
fn broadcast_goes_to_every_peer_in_order() {
    let mut node = Node::new(local(7600));
    for port in [11u16, 12, 13] {
        node.add_peer(local(port));
    }
    let msg = Message::Text { from: node.id().clone(), content: "x".to_string() };
    let mut plan = node.broadcast_message(&msg);
    assert_eq!(plan.message(), &msg);
    assert_eq!(plan.targets(), vec![local(11), local(12), local(13)]);
    let mut sent = Vec::new();
    while let FanoutStep::Send(addr) = plan.next_step() {
        sent.push(addr);
        plan.record(true);
    }
    assert_eq!(sent, vec![local(11), local(12), local(13)]);
    assert_eq!(plan.next_step(), FanoutStep::Complete);
    assert_eq!(plan.delivered(), 3);
}

#[test]
fn fanout_stops_at_the_first_failure() {
    let targets = vec![local(21), local(22), local(23)];
    let mut plan = Fanout::new(Message::Handshake { id: "n".to_string() }, targets);
    assert_eq!(plan.next_step(), FanoutStep::Send(local(21)));
    plan.record(true);
    assert_eq!(plan.next_step(), FanoutStep::Send(local(22)));
    plan.record(false);
    assert_eq!(plan.next_step(), FanoutStep::Aborted);
    plan.record(true);
    assert_eq!(plan.next_step(), FanoutStep::Aborted);
    assert_eq!(plan.delivered(), 1);
}

#[test]
fn fanout_with_no_targets_is_complete() {
    let plan = Fanout::new(Message::Handshake { id: "n".to_string() }, Vec::new());
    assert_eq!(plan.next_step(), FanoutStep::Complete);
}

#[test]
fn user_input_is_broadcast_as_text() {
    let mut node = Node::new(local(7700));
    node.add_peer(local(31));
    node.add_peer(local(32));
    let plan = node.handle_user_input("typed line".to_string());
    assert_eq!(
        plan.message(),
        &Message::Text { from: node.id().clone(), content: "typed line".to_string() }
    );
    assert_eq!(plan.targets(), vec![local(31), local(32)]);
    assert_eq!(plan.next_step(), FanoutStep::Send(local(31)));
}

fn sorted_ports(addrs: &[PeerAddr]) -> Vec<u16> {
    let mut ports: Vec<u16> = addrs
        .iter()
        .map(|a| match a {
            PeerAddr::V4 { port, .. } => *port,
            PeerAddr::V6 { port, .. } => *port,
        })
        .collect();
    ports.sort();
    ports
}

#[test]
fn gossip_round_sends_handshake_to_every_peer_once() {
    let mut node = Node::new(local(7800));
    for port in 40u16..50 {
        node.add_peer(local(port));
    }
    let plan = node.gossip_message();
    assert_eq!(plan.message(), &Message::Handshake { id: node.id().clone() });
    assert_eq!(sorted_ports(&plan.targets()), (40u16..50).collect::<Vec<u16>>());
    assert_eq!(plan.delivered(), 0);
}

#[test]
fn gossip_without_peers_is_complete_at_once() {
    let node = Node::new(local(7900));
    let plan = node.gossip_message();
    assert_eq!(plan.next_step(), FanoutStep::Complete);
}

#[test]
fn gossip_loop_rounds_then_sleeps_then_stops_on_failure() {
    let mut node = Node::new(local(8000));
    node.add_peer(local(51));
    match gossip_at_interval(&node, GossipEvent::Started) {
        GossipAction::Round(plan) => {
            assert_eq!(plan.message(), &Message::Handshake { id: node.id().clone() });
            assert_eq!(plan.targets(), vec![local(51)]);
        }
        _ => panic!("a round was expected"),
    }
    match gossip_at_interval(&node, GossipEvent::RoundEnded { aborted: false }) {
        GossipAction::Sleep { secs } => assert_eq!(secs, 5),
        _ => panic!("a pause was expected"),
    }
    assert_eq!(GOSSIP_INTERVAL_SECS, 5);
    assert!(matches!(gossip_at_interval(&node, GossipEvent::Woke), GossipAction::Round(_)));
    assert!(matches!(
        gossip_at_interval(&node, GossipEvent::RoundEnded { aborted: true }),
        GossipAction::Stop
    ));
}

#[test]
fn address_helpers() {
    let v6a = PeerAddr::V6 { ip: 1, port: 80, flowinfo: 0, scope_id: 0 };
    let v6b = PeerAddr::V6 { ip: 1, port: 80, flowinfo: 0, scope_id: 2 };
    let addrs = vec![local(1), v6a];
    assert!(contains_addr(&addrs, v6a));
    assert!(!contains_addr(&addrs, v6b));
    assert!(!contains_addr(&addrs, local(2)));
    assert_eq!(copy_addrs(&addrs), addrs);
}

#[test]
fn gossip_order_is_shuffled() {
    let mut node = Node::new(local(8100));
    let in_order: Vec<PeerAddr> = (60u16..70).map(local).collect();
    for addr in &in_order {
        node.add_peer(*addr);
    }
    let mut saw_other_order = false;
    for _ in 0..20 {
        if node.gossip_message().targets() != in_order {
            saw_other_order = true;
        }
    }
    assert!(saw_other_order);
}

#[test]
fn series_of_arrivals_registers_first_seen_senders_and_forwards_texts() {
    let mut node = Node::new(local(8200));
    node.add_peer(local(1));
    let hello = |id: &str| Some(Message::Handshake { id: id.to_string() });
    let text = |c: &str| Some(Message::Text { from: "n".to_string(), content: c.to_string() });
    let arrivals = vec![
        (local(3), hello("c")),
        (local(2), text("first")),
        (local(1), hello("a")),
        (local(2), hello("b")),
        (local(4), None),
        (local(3), hello("c")),
        (local(5), text("second")),
    ];
    let mut forwarded = Vec::new();
    for (from, parsed) in arrivals {
        if let Inbound::Forward(Message::Text { content, .. }) = node.recieve_message(from, parsed) {
            forwarded.push(content);
        }
    }
    assert_eq!(forwarded, vec!["first".to_string(), "second".to_string()]);
    assert_eq!(node.get_peers(), vec![local(1), local(3), local(2)]);
}

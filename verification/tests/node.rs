use kademlia::contact::Entry;
use kademlia::node::{Dispatch, NodeState};
use kademlia::routing::KadId;
use kademlia::rpc::{kad_packet, packet_body, request_types, response_types};

fn named(byte: u8) -> KadId {
    let mut id: KadId = [0; 20];
    id[0] = byte;
    id
}

fn request(src: KadId, dest: KadId, txid: KadId) -> kad_packet {
    kad_packet { src, dest, txid, body: packet_body::REQUEST(request_types::GET_NODE(dest)) }
}

fn response(src: KadId, dest: KadId, txid: KadId) -> kad_packet {
    kad_packet { src, dest, txid, body: packet_body::RESPONSE(response_types::STORE(true)) }
}

#[test]
fn fresh_node_knows_nobody() {
    let node = NodeState::with_id(named(1));
    assert_eq!(node.id, named(1));
    assert_eq!(node.routing_table.local_id(), &named(1));
    assert_eq!(node.routing_table.get_bucket(named(2)).len(), 0);
    assert_eq!(node.routing_table.get_bucket(named(2)).size(), 20);
    assert!(node.session_table.get(named(2)).is_none());
}

#[test]
fn random_nodes_get_different_identifiers() {
    let one = NodeState::new();
    let other = NodeState::new();
    assert_ne!(one.id, other.id);
    assert_eq!(one.routing_table.local_id(), &one.id);
    assert_eq!(one.routing_table.get_bucket(other.id).len(), 0);
}

#[test]
fn packet_for_another_node_is_dropped() {
    let mut node = NodeState::with_id(named(1));
    node.session_table.add_at(named(9), request(named(1), named(2), named(9)), 0);
    let action = node.process_packet_at(
        response(named(2), named(3), named(9)),
        String::from("10.0.0.2"),
        String::from("7"),
        5,
    );
    assert!(matches!(action, Dispatch::Dropped));
    assert_eq!(node.routing_table.get_bucket(named(2)).len(), 0);
    assert!(node.session_table.get(named(9)).unwrap().response().is_none());
}

#[test]
fn request_is_handed_back_and_its_sender_remembered() {
    let mut node = NodeState::with_id(named(1));
    let action = node.process_packet_at(
        request(named(2), named(1), named(9)),
        String::from("10.0.0.2"),
        String::from("7"),
        5,
    );
    match action {
        Dispatch::Request(packet) => {
            assert_eq!(packet.src, named(2));
            assert_eq!(packet.txid, named(9));
            assert!(matches!(packet.body, packet_body::REQUEST(request_types::GET_NODE(_))));
        }
        _ => panic!("the request was not handed back"),
    }
    let entry = node.routing_table.get_bucket(named(2)).get(named(2)).unwrap();
    assert_eq!(entry.ip(), "10.0.0.2");
    assert_eq!(entry.port(), "7");
    assert_eq!(entry.last_seen(), 5);
    assert!(node.session_table.get(named(9)).is_none());
}

#[test]
fn response_completes_its_transaction_once() {
    let mut node = NodeState::with_id(named(1));
    node.session_table.add_at(named(9), request(named(1), named(2), named(9)), 0);

    let first = node.process_packet_at(
        response(named(2), named(1), named(9)),
        String::from("10.0.0.2"),
        String::from("7"),
        5,
    );
    assert!(matches!(first, Dispatch::Response(true)));
    assert!(node.session_table.get(named(9)).unwrap().response().is_some());
    assert!(node.routing_table.get_bucket(named(2)).get(named(2)).is_some());

    let second = node.process_packet_at(
        response(named(2), named(1), named(9)),
        String::from("10.0.0.2"),
        String::from("7"),
        6,
    );
    assert!(matches!(second, Dispatch::Response(false)));
    assert_eq!(node.routing_table.get_bucket(named(2)).get(named(2)).unwrap().last_seen(), 6);
}

#[test]
fn response_without_transaction_is_refused() {
    let mut node = NodeState::with_id(named(1));
    let action = node.process_packet_at(
        response(named(2), named(1), named(9)),
        String::from("10.0.0.2"),
        String::from("7"),
        5,
    );
    assert!(matches!(action, Dispatch::Response(false)));
    assert!(node.session_table.get(named(9)).is_none());
    assert!(!node.process_rsp(response(named(2), named(1), named(8))));
}

#[test]
fn packet_from_the_node_itself_is_not_recorded() {
    let mut node = NodeState::with_id(named(1));
    let action = node.process_packet_at(
        request(named(1), named(1), named(9)),
        String::from("127.0.0.1"),
        String::from("7"),
        5,
    );
    assert!(matches!(action, Dispatch::Request(_)));
    assert_eq!(node.routing_table.get_bucket(named(1)).len(), 0);
}

#[test]
fn packet_taken_in_now_stamps_the_sender_with_the_clock() {
    let mut node = NodeState::with_id(named(1));
    let packet = request(named(2), named(1), named(9));
    let action = node.process_packet(packet, String::from("h"), String::from("1"));
    assert!(matches!(action, Dispatch::Request(_)));
    let entry = node.routing_table.get_bucket(named(2)).get(named(2)).unwrap();
    assert!(entry.last_seen() > 1_577_836_800_000);
}

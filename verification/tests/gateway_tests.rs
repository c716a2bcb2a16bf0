use constella_db::gateway::{ClientAction, Gateway, NodeAction};
use constella_db::protocol::{Message, MessageType};

fn msg(id: &str, t: MessageType, node: &str, payload: &[u8]) -> Message {
    Message::new(id.to_string(), t, node.to_string()).with_payload(payload.to_vec())
}

#[test]
fn gateway_first_registered_node_leads() {
    let mut g = Gateway::new();
    assert!(g.leader().is_none());
    g.register("n1");
    g.register("n2");
    g.register("n1");
    assert_eq!(g.leader().as_deref(), Some("n1"));
    assert_eq!(g.nodes(), &vec!["n1".to_string(), "n2".to_string()]);
}

#[test]
fn gateway_leader_replaced_on_removal() {
    let mut g = Gateway::new();
    g.register("n1");
    g.register("n2");
    g.register("n3");
    g.remove_node("n2");
    assert_eq!(g.leader().as_deref(), Some("n1"));
    g.remove_node("n1");
    assert_eq!(g.leader().as_deref(), Some("n3"));
    g.remove_node("n3");
    assert!(g.leader().is_none());
    assert!(g.nodes().is_empty());
}

#[test]
fn gateway_query_goes_to_leader_with_followers() {
    let mut g = Gateway::new();
    g.register("n1");
    g.register("n2");
    let m = msg("req-1", MessageType::Query, "client", b"DROP TABLE t");
    match g.on_client_message(&m) {
        ClientAction::ToLeader { leader, message } => {
            assert_eq!(leader, "n1");
            assert_eq!(message.id, "req-1");
            assert_eq!(message.node_id, "gateway");
            assert!(matches!(&message.msg_type, MessageType::Lead { followers } if followers == &vec!["n1".to_string(), "n2".to_string()]));
            assert!(message.command.is_some());
        }
        _ => panic!("expected the query to go to the leader"),
    }
    assert_eq!(g.requests(), &vec!["req-1".to_string()]);
}

#[test]
fn gateway_parse_error_is_answered() {
    let mut g = Gateway::new();
    g.register("n1");
    let m = msg("req-2", MessageType::Query, "client", b"");
    match g.on_client_message(&m) {
        ClientAction::Reply(r) => {
            assert!(matches!(&r.msg_type, MessageType::Response { sucess: false, message: Some(t), data: None } if t == "empty input"));
            assert_eq!(r.id, "");
        }
        _ => panic!("expected a reply"),
    }
    assert!(g.requests().is_empty());
}

#[test]
fn gateway_without_leader_and_bad_payloads() {
    let mut g = Gateway::new();
    assert!(matches!(g.on_client_message(&msg("r", MessageType::Query, "c", b"SHOW TABLES")), ClientAction::NoLeader));
    assert!(matches!(g.on_client_message(&msg("r", MessageType::Query, "c", &[0xff, 0xfe])), ClientAction::InvalidPayload));
    assert!(matches!(g.on_client_message(&msg("r", MessageType::Register, "c", b"")), ClientAction::Unexpected));
    assert!(g.requests().is_empty());
}

#[test]
fn gateway_response_forwarded_once() {
    let mut g = Gateway::new();
    g.register("n1");
    let _ = g.on_client_message(&msg("req-3", MessageType::Query, "client", b"SHOW TABLES"));
    let resp = || msg("req-3", MessageType::Response { sucess: true, message: Some("ok".to_string()), data: None }, "n1", b"");
    assert!(matches!(g.on_node_message(resp()), NodeAction::Forward(m) if m.id == "req-3"));
    assert!(matches!(g.on_node_message(resp()), NodeAction::Dropped));
    assert!(g.requests().is_empty());
}

#[test]
fn gateway_registration_by_message() {
    let mut g = Gateway::new();
    assert!(matches!(g.on_node_message(msg("", MessageType::Register, "node-a", b"")), NodeAction::Registered));
    assert_eq!(g.leader().as_deref(), Some("node-a"));
    assert!(matches!(g.on_node_message(msg("", MessageType::Error, "node-a", b"")), NodeAction::Unexpected));
}

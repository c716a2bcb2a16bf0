use constella_db::engine::Engine;
use constella_db::parser::parse_cmd;
use constella_db::protocol_module::{Message, MessageType};
use constella_db::server::{answer_heartbeat, apply_sync, is_pong, ping_message, serve_query, server_execute, sync_message, Served, Server};

fn setup() -> Engine {
    let mut e = Engine::new();
    server_execute(&mut e, parse_cmd("CREATE TABLE people (id INT, name VARCHAR(20), age INT)").unwrap());
    e
}

#[test]
fn server_execute_texts() {
    let mut e = Engine::new();
    assert_eq!(server_execute(&mut e, parse_cmd("CREATE TABLE people (id INT, name VARCHAR(20), age INT)").unwrap()), "OK: table 'people' created");
    assert_eq!(
        server_execute(&mut e, parse_cmd("INSERT INTO people (id, name, age) VALUES (1, 'Ann', 40)").unwrap()),
        "OK: 1 row inserted into 'people'"
    );
    assert_eq!(
        server_execute(&mut e, parse_cmd("SELECT * FROM people").unwrap()),
        "OK: 1 row(s)\n  id=Int(1), name=VarChar(\"Ann\"), age=Int(40)"
    );
    assert_eq!(server_execute(&mut e, parse_cmd("UPDATE people SET age = 41 WHERE id = 1").unwrap()), "OK: 1 row(s) updated");
    assert_eq!(server_execute(&mut e, parse_cmd("DELETE FROM people WHERE id = 1").unwrap()), "OK: 1 row(s) deleted");
    assert_eq!(server_execute(&mut e, parse_cmd("DROP TABLE people").unwrap()), "OK: table 'people' dropped");
    assert!(server_execute(&mut e, parse_cmd("DROP TABLE people").unwrap()).starts_with("Error: "));
}

#[test]
fn server_star_means_three_columns() {
    let mut e = Engine::new();
    server_execute(&mut e, parse_cmd("CREATE TABLE t (a INT)").unwrap());
    let out = server_execute(&mut e, parse_cmd("SELECT * FROM t").unwrap());
    assert!(out.starts_with("Error: "), "{}", out);
}

#[test]
fn server_new_keeps_address() {
    assert_eq!(Server::new("0.0.0.0:7878").addr, "0.0.0.0:7878");
}

#[test]
fn heartbeat_ping_pong() {
    let ping = ping_message(4, "node-x");
    assert_eq!(ping.payload, b"PING".to_vec());
    let pong = answer_heartbeat(&ping).unwrap();
    assert_eq!(pong.id, 4);
    assert_eq!(pong.node_id, "server");
    assert_eq!(pong.payload, b"PONG".to_vec());
    assert!(is_pong(&pong));
    assert!(!is_pong(&ping));
    let other = Message::new(1, MessageType::Heartbeat, "n".to_string()).with_payload(b"HELLO".to_vec());
    assert!(answer_heartbeat(&other).is_none());
    let q = Message::new(1, MessageType::Query, "n".to_string()).with_payload(b"PING".to_vec());
    assert!(answer_heartbeat(&q).is_none());
}

#[test]
fn serve_query_replies() {
    let mut e = setup();
    let m = Message::new(9, MessageType::Query, "c".to_string()).with_payload(b"INSERT INTO people (id, name, age) VALUES (2, 'Bo', 9)".to_vec());
    match serve_query(&mut e, &m, "server") {
        Served::Reply(r) => {
            assert_eq!(r.id, 9);
            assert!(r.is_response());
            assert_eq!(r.payload, b"OK: 1 row inserted into 'people'".to_vec());
        }
        _ => panic!("expected a reply"),
    }
    let bad = Message::new(10, MessageType::Query, "c".to_string()).with_payload(vec![0xc3, 0x28]);
    match serve_query(&mut e, &bad, "server") {
        Served::Reply(r) => {
            assert!(matches!(r.msg_type, MessageType::Error));
            assert_eq!(r.payload, b"invalid UTF-8 payload".to_vec());
        }
        _ => panic!("expected an error reply"),
    }
    let parse_err = Message::new(11, MessageType::Query, "c".to_string()).with_payload(b"".to_vec());
    match serve_query(&mut e, &parse_err, "leader") {
        Served::Reply(r) => {
            assert_eq!(r.node_id, "leader");
            assert_eq!(r.payload, b"Parse error: empty input".to_vec());
        }
        _ => panic!("expected a reply"),
    }
    let hb = Message::new(12, MessageType::Heartbeat, "c".to_string());
    assert!(matches!(serve_query(&mut e, &hb, "server"), Served::Ignored));
}

#[test]
fn sync_is_applied_by_follower() {
    let mut e = setup();
    let s = sync_message(0, "INSERT INTO people (id, name, age) VALUES (3, 'Cy', 30)");
    assert!(matches!(s.msg_type, MessageType::Sync));
    assert_eq!(s.node_id, "leader");
    match apply_sync(&mut e, &s) {
        Served::Reply(line) => assert_eq!(line, "sync result: OK: 1 row inserted into 'people'"),
        _ => panic!("expected a log line"),
    }
    let bad = sync_message(1, "NOT SQL AT ALL");
    match apply_sync(&mut e, &bad) {
        Served::Reply(line) => assert!(line.starts_with("parse error: syntax error: "), "{}", line),
        _ => panic!("expected a log line"),
    }
    let q = Message::new(2, MessageType::Query, "c".to_string());
    assert!(matches!(apply_sync(&mut e, &q), Served::Ignored));
}

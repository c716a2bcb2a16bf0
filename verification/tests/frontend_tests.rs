use constella_db::engine::Engine;
use constella_db::frontend::{answer_query, classify_input, command_line, query_message, shell_step, split_statements, ClientInput, ShellStep};
use constella_db::protocol::{Message, MessageType};
use constella_db::server::Served;

#[test]
fn split_script_statements() {
    let s = split_statements("CREATE TABLE t (a INT);\n  INSERT INTO t (a) VALUES (1) ;; \n SELECT * FROM t");
    assert_eq!(s, vec![
        "CREATE TABLE t (a INT)".to_string(),
        "INSERT INTO t (a) VALUES (1)".to_string(),
        "SELECT * FROM t".to_string(),
    ]);
    assert!(split_statements("").is_empty());
    assert!(split_statements(" ; ;\n").is_empty());
    assert_eq!(split_statements("a;"), vec!["a".to_string()]);
}

#[test]
fn classify_client_input() {
    assert!(matches!(classify_input("   "), ClientInput::Empty));
    assert!(matches!(classify_input(" help "), ClientInput::Help));
    assert!(matches!(classify_input("clear"), ClientInput::Clear));
    assert!(matches!(classify_input("run-file   data.sql  "), ClientInput::RunFile(p) if p == "data.sql"));
    assert!(matches!(classify_input(" SELECT 1 \n"), ClientInput::Sql(s) if s == "SELECT 1"));
    assert!(matches!(classify_input("run-file"), ClientInput::Sql(s) if s == "run-file"));
}

#[test]
fn shell_steps() {
    let mut e = Engine::new();
    assert!(matches!(shell_step(&mut e, "  \n"), ShellStep::Skip));
    assert!(matches!(shell_step(&mut e, "quit\n"), ShellStep::Quit));
    assert!(matches!(shell_step(&mut e, "q"), ShellStep::Quit));
    assert!(matches!(shell_step(&mut e, "exit"), ShellStep::Quit));
    assert!(matches!(shell_step(&mut e, "CREATE TABLE t (a INT)\n"), ShellStep::Output(o) if o == "OK: table 't' created"));
    assert!(matches!(shell_step(&mut e, "SELECT a FROM t"), ShellStep::Output(o) if o == "OK: 0 row(s)"));
    assert!(matches!(shell_step(&mut e, "SELEC"), ShellStep::Output(o) if o.starts_with("Parse error: syntax error: ")));
}

#[test]
fn client_query_message() {
    let m = query_message("id-1".to_string(), "client", "SELECT 1");
    assert_eq!(m.id, "id-1");
    assert_eq!(m.node_id, "client");
    assert!(matches!(m.msg_type, MessageType::Query));
    assert_eq!(m.payload, b"SELECT 1".to_vec());
}

#[test]
fn standalone_server_answers() {
    let mut e = Engine::new();
    let m = Message::new("a1".to_string(), MessageType::Query, "c".to_string()).with_payload(b"CREATE TABLE t (a INT)".to_vec());
    match answer_query(&mut e, &m) {
        Served::Reply(r) => {
            assert_eq!(r.id, "a1");
            assert_eq!(r.node_id, "server");
            assert_eq!(r.payload, b"OK: table 't' created".to_vec());
        }
        _ => panic!("expected a reply"),
    }
    let bad = Message::new("a2".to_string(), MessageType::Query, "c".to_string()).with_payload(vec![0xff]);
    assert!(matches!(answer_query(&mut e, &bad), Served::Reply(r) if matches!(r.msg_type, MessageType::Error)));
    let other = Message::new("a3".to_string(), MessageType::Register, "c".to_string());
    assert!(matches!(answer_query(&mut e, &other), Served::Ignored));
}

#[test]
fn command_line_text() {
    assert_eq!(command_line("/bin/db_service", &vec!["-p".to_string(), "5000".to_string()]), "$ /bin/db_service -p 5000");
    assert_eq!(command_line("x", &vec![]), "$ x ");
}

use constella_db::command::Command;
use constella_db::db_service::{handle_command, respond, result_to_response, ExecuteResult as DbResult};
use constella_db::engine::Engine;
use constella_db::executor::ExecuteResult;
use constella_db::http_api::{
    create_table_route, delete_row_route, drop_table_route, insert_row_route, json_to_db_value, map_response,
    select_rows_route, type_from_name, update_row_route, Json,
};
use constella_db::job_service::{
    exec_request, job_complete_message, job_init_message, job_request, thread_count, HttpMethod, JsonBody,
};
use constella_db::parser::parse_cmd;
use constella_db::protocol::{Message, MessageType, ResponseData};
use constella_db::query_service::{error_status, handle_query, QueryRequest};
use constella_db::types::{Type, Value};
use constella_db::command::CmdError;

fn engine_with_people() -> Engine {
    let mut e = Engine::new();
    handle_command(&mut e, parse_cmd("CREATE TABLE people (id INT, name VARCHAR(20))").unwrap());
    e
}

#[test]
fn db_service_handles_commands() {
    let mut e = Engine::new();
    assert!(matches!(handle_command(&mut e, Command::ShowTables), DbResult::ErrorMsg(m) if m == "No tables exist"));
    assert!(matches!(
        handle_command(&mut e, parse_cmd("CREATE TABLE people (id INT, name VARCHAR(20))").unwrap()),
        DbResult::SuccessMsg(m) if m == "Table 'people' created"
    ));
    assert!(matches!(
        handle_command(&mut e, parse_cmd("INSERT INTO people (id, name) VALUES (1, 'A')").unwrap()),
        DbResult::SuccessMsg(m) if m == "Sucessfully inserted 1 Row"
    ));
    assert!(matches!(handle_command(&mut e, Command::ShowTables), DbResult::Tables(t) if t == vec!["people".to_string()]));
    assert!(matches!(
        handle_command(&mut e, parse_cmd("UPDATE people SET name = 'B' WHERE id = 1").unwrap()),
        DbResult::SuccessMsg(m) if m == "Updated Rows: 1"
    ));
    assert!(matches!(handle_command(&mut e, parse_cmd("SELECT name FROM people").unwrap()), DbResult::Rows(r) if r.len() == 1));
    assert!(matches!(
        handle_command(&mut e, parse_cmd("DELETE FROM people WHERE id = 1").unwrap()),
        DbResult::SuccessMsg(m) if m == "Deleted Rows: 1"
    ));
    assert!(matches!(
        handle_command(&mut e, parse_cmd("DROP TABLE people").unwrap()),
        DbResult::SuccessMsg(m) if m == "Table 'people' dropped"
    ));
}

#[test]
fn db_service_result_to_response() {
    assert!(matches!(
        result_to_response(DbResult::ErrorMsg("x".to_string())),
        MessageType::Response { sucess: false, message: Some(m), data: None } if m == "x"
    ));
    assert!(matches!(
        result_to_response(DbResult::Tables(vec!["a".to_string()])),
        MessageType::Response { sucess: true, message: None, data: Some(ResponseData::Tables(t)) } if t == vec!["a".to_string()]
    ));
}

#[test]
fn db_service_respond_to_messages() {
    let mut e = engine_with_people();
    let m = Message::new("x".to_string(), MessageType::ExecCmd, "n".to_string()).with_command(Command::ShowTables);
    let r = respond(&mut e, m).unwrap();
    assert_eq!(r.id, "");
    assert!(matches!(r.msg_type, MessageType::Response { sucess: true, data: Some(ResponseData::Tables(_)), .. }));
    let missing = Message::new("x".to_string(), MessageType::ExecCmd, "n".to_string());
    assert!(matches!(respond(&mut e, missing).unwrap().msg_type,
        MessageType::Response { sucess: false, message: Some(m), .. } if m == "Command is Missing"));
    let other = Message::new("x".to_string(), MessageType::Query, "n".to_string());
    assert!(matches!(respond(&mut e, other).unwrap().msg_type,
        MessageType::Response { sucess: false, message: Some(m), .. } if m == "This only handles ExecCmd Message"));
}

#[test]
fn http_json_values() {
    assert!(matches!(json_to_db_value(Json::Int(5)), Ok(Value::Int(5))));
    assert!(matches!(json_to_db_value(Json::Int(4_294_967_297)), Ok(Value::Int(1))));
    assert!(matches!(json_to_db_value(Json::Str("s".to_string())), Ok(Value::VarChar(s)) if s == "s"));
    assert_eq!(json_to_db_value(Json::Float).unwrap_err(), "Invalid integer");
    assert_eq!(json_to_db_value(Json::BigUint(u64::MAX)).unwrap_err(), "Invalid integer");
    assert_eq!(json_to_db_value(Json::Bool(true)).unwrap_err(), "Unsupported data format");
    assert_eq!(json_to_db_value(Json::Null).unwrap_err(), "Unsupported data format");
}

#[test]
fn http_type_names() {
    assert_eq!(type_from_name("int"), Type::Int);
    assert_eq!(type_from_name("InT"), Type::Int);
    assert_eq!(type_from_name("STRING"), Type::VarChar(255));
    assert_eq!(type_from_name("float"), Type::VarChar(255));
}

#[test]
fn http_routes() {
    let mut e = Engine::new();
    let r = create_table_route(&mut e, "users".to_string(), vec![("id".to_string(), "int".to_string()), ("name".to_string(), "string".to_string())]);
    assert!(r.success);
    assert_eq!(r.message.as_deref(), Some("Table created successfully"));
    assert_eq!(e.get_tables()[0].attrs[1].data_type, Type::VarChar(255));
    let r = insert_row_route(&mut e, "users".to_string(), vec![("id".to_string(), Json::Int(1)), ("name".to_string(), Json::Str("Ann".to_string()))]);
    assert_eq!(r.message.as_deref(), Some("Row inserted"));
    let r = insert_row_route(&mut e, "users".to_string(), vec![("id".to_string(), Json::Float)]);
    assert!(!r.success);
    assert_eq!(r.message.as_deref(), Some("Invalid integer"));
    let r = select_rows_route(&e, "users".to_string());
    assert!(r.success && r.message.is_none());
    assert_eq!(r.rows.as_ref().unwrap().len(), 1);
    let r = update_row_route(&mut e, "users".to_string(), vec![("name".to_string(), Json::Str("Bo".to_string()))], vec![("id".to_string(), Json::Int(1))]);
    assert_eq!(r.message.as_deref(), Some("1 row(s) updated"));
    let r = delete_row_route(&mut e, "users".to_string(), vec![("id".to_string(), Json::Int(2))]);
    assert_eq!(r.message.as_deref(), Some("0 row(s) deleted"));
    let r = delete_row_route(&mut e, "users".to_string(), vec![("id".to_string(), Json::Int(1))]);
    assert_eq!(r.message.as_deref(), Some("1 row(s) deleted"));
    let r = drop_table_route(&mut e, "users".to_string());
    assert_eq!(r.message.as_deref(), Some("Table 'users' deleted"));
    let r = drop_table_route(&mut e, "users".to_string());
    assert!(!r.success);
}

#[test]
fn http_map_response() {
    let r = map_response(ExecuteResult::Rows(vec![]));
    assert!(r.success && r.message.is_none() && r.rows.unwrap().is_empty());
    let r = map_response(ExecuteResult::Error("bad".to_string()));
    assert!(!r.success && r.message.as_deref() == Some("bad") && r.rows.is_none());
}

#[test]
fn query_service_statuses() {
    let mut e = Engine::new();
    let (s, r) = handle_query(&mut e, &QueryRequest { query: "CREATE TABLE t (a INT)".to_string() }).unwrap();
    assert_eq!(s, 200);
    assert!(r.success);
    assert_eq!(r.message.as_deref(), Some("OK: table 't' created"));
    let (s, r) = handle_query(&mut e, &QueryRequest { query: "DROP TABLE nope".to_string() }).unwrap();
    assert_eq!(s, 400);
    assert!(!r.success);
    let (s, r) = handle_query(&mut e, &QueryRequest { query: "SELECT a FROM t".to_string() }).unwrap();
    assert_eq!(s, 200);
    assert!(r.rows.unwrap().is_empty());
    let (s, _) = handle_query(&mut e, &QueryRequest { query: "BEGIN".to_string() }).unwrap();
    assert_eq!(s, 501);
    let (s, r) = handle_query(&mut e, &QueryRequest { query: "".to_string() }).unwrap();
    assert_eq!(s, 400);
    assert_eq!(r.message.as_deref(), Some("empty input"));
    assert_eq!(error_status(&CmdError::UnsupportedExpr("x".to_string())), 501);
    assert_eq!(error_status(&CmdError::Syntax("x".to_string())), 400);
}

#[test]
fn job_requests_for_commands() {
    let r = job_request(&parse_cmd("CREATE TABLE p (id INT, n VARCHAR(9))").unwrap(), "10.0.0.1:80");
    assert_eq!(r.method, HttpMethod::Post);
    assert_eq!(r.url, "http://10.0.0.1:80/tables");
    match r.body {
        Some(JsonBody::CreateTable { name, attrs }) => {
            assert_eq!(name, "p");
            assert_eq!(attrs, vec![("id".to_string(), "INT".to_string()), ("n".to_string(), "STRING".to_string())]);
        }
        _ => panic!("expected a create body"),
    }
    let r = job_request(&parse_cmd("DROP TABLE p").unwrap(), "h");
    assert_eq!((r.method, r.url.as_str()), (HttpMethod::Delete, "http://h/tables/p"));
    let r = job_request(&Command::ShowTables, "h");
    assert_eq!((r.method, r.url.as_str()), (HttpMethod::Get, "http://h/tables"));
    let r = job_request(&parse_cmd("SELECT * FROM p WHERE id = 1").unwrap(), "h");
    assert_eq!((r.method, r.url.as_str()), (HttpMethod::Get, "http://h/tables/p/rows"));
    assert!(r.body.is_none());
    let r = job_request(&parse_cmd("INSERT INTO p (id, n) VALUES (1, 'x')").unwrap(), "h");
    assert!(matches!(r.body, Some(JsonBody::Fields(f)) if f.len() == 2 && f[0].0 == "id"));
    let r = job_request(&parse_cmd("UPDATE p SET n = 'y' WHERE id = 1 OR id = 2").unwrap(), "h");
    assert_eq!(r.method, HttpMethod::Put);
    match r.body {
        Some(JsonBody::Update { updates, conditions }) => {
            assert_eq!(updates.len(), 1);
            assert!(conditions.is_empty());
        }
        _ => panic!("expected an update body"),
    }
    let r = job_request(&parse_cmd("DELETE FROM p WHERE id = 3").unwrap(), "h");
    assert_eq!((r.method, r.url.as_str()), (HttpMethod::Delete, "http://h/tables/p/rows"));
    assert!(matches!(r.body, Some(JsonBody::Fields(f)) if f.len() == 1 && matches!(f[0].1, Value::Int(3))));
}

#[test]
fn job_messages() {
    let m = job_init_message("q1".to_string(), "job-7".to_string(), "1.2.3.4:5");
    assert_eq!(m.id, "q1");
    assert_eq!(m.node_id, "1.2.3.4:5");
    assert!(matches!(&m.msg_type, MessageType::JobInit { job_id } if job_id == "job-7"));
    let m = job_complete_message("job-7".to_string(), "{\"success\":true}");
    assert!(matches!(&m.msg_type, MessageType::JobComplete { job_id } if job_id == "job-7"));
    assert_eq!(m.payload, b"{\"success\":true}".to_vec());
    let m = exec_request(Command::ShowTables);
    assert!(matches!(m.msg_type, MessageType::ExecCmd));
    assert!(matches!(m.command, Some(Command::ShowTables)));
}

#[test]
fn job_thread_counts() {
    assert_eq!(thread_count(None, 8), Ok(8));
    assert_eq!(thread_count(Some(4), 8), Ok(4));
    assert_eq!(thread_count(Some(9), 8), Err("[ERROR] Your machine only supports 8 threads.".to_string()));
}

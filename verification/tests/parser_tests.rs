use constella_db::command::{CmdError, Command};
use constella_db::parser::{column_name, convert_data_type, convert_statement, parse_cmd};
use constella_db::sql::{SqlCharLength, SqlDataType, SqlNamePart, SqlStatement};
use constella_db::types::{Condition, Operator, Type, Value};

#[test]
fn parse_create_table_types() {
    match parse_cmd("CREATE TABLE people (id INT, name VARCHAR(50), age INTEGER)").unwrap() {
        Command::CreateTable(t) => {
            assert_eq!(t.name, "people");
            assert_eq!(t.attrs.len(), 3);
            assert_eq!(t.attrs[0].name, "id");
            assert_eq!(t.attrs[0].data_type, Type::Int);
            assert_eq!(t.attrs[1].data_type, Type::VarChar(50));
            assert_eq!(t.attrs[2].data_type, Type::Int);
        }
        other => panic!("unexpected {:?}", other),
    }
}

#[test]
fn parse_unsupported_data_type() {
    match parse_cmd("CREATE TABLE t (flag BOOLEAN)") {
        Err(CmdError::Unsupported(m)) => assert!(m.starts_with("data type "), "{}", m),
        other => panic!("unexpected {:?}", other),
    }
}

#[test]
fn parse_insert_pairs_columns_with_values() {
    match parse_cmd("INSERT INTO people (id, name) VALUES (7, 'Ann')").unwrap() {
        Command::Insert(e) => {
            assert_eq!(e.of, "people");
            assert_eq!(e.data.len(), 2);
            assert_eq!(e.data[0].name, "id");
            assert!(matches!(e.data[0].value, Value::Int(7)));
            assert_eq!(e.data[1].name, "name");
            assert!(matches!(&e.data[1].value, Value::VarChar(s) if s == "Ann"));
        }
        other => panic!("unexpected {:?}", other),
    }
}

#[test]
fn parse_insert_count_mismatch() {
    match parse_cmd("INSERT INTO people (id, name) VALUES (7)") {
        Err(CmdError::Syntax(m)) => assert_eq!(m, "column/value count mismatch"),
        other => panic!("unexpected {:?}", other),
    }
}

#[test]
fn parse_insert_from_select_is_unsupported() {
    match parse_cmd("INSERT INTO people (id) SELECT id FROM others") {
        Err(CmdError::Unsupported(m)) => assert_eq!(m, "INSERT without VALUES"),
        other => panic!("unexpected {:?}", other),
    }
}

#[test]
fn parse_invalid_integer() {
    let e = parse_cmd("INSERT INTO t (a) VALUES (99999999999)").unwrap_err();
    assert_eq!(e.to_string(), "syntax error: invalid integer: 99999999999");
}

#[test]
fn parse_select_with_conditions() {
    match parse_cmd("SELECT id, name FROM people WHERE (age >= 18 AND name <> 'Bob') OR id < 3").unwrap() {
        Command::Select { table, attrs, conditions } => {
            assert_eq!(table, "people");
            assert_eq!(attrs, vec!["id".to_string(), "name".to_string()]);
            assert_eq!(conditions.len(), 1);
            match &conditions[0] {
                Condition::Or(l, r) => {
                    match &**l {
                        Condition::And(a, b) => {
                            assert!(matches!(&**a, Condition::Compare { attr, value: Value::Int(18), op: Operator::Ge } if attr == "age"));
                            assert!(matches!(&**b, Condition::Compare { attr, op: Operator::Ne, .. } if attr == "name"));
                        }
                        other => panic!("unexpected {:?}", other),
                    }
                    assert!(matches!(&**r, Condition::Compare { attr, value: Value::Int(3), op: Operator::Lt } if attr == "id"));
                }
                other => panic!("unexpected {:?}", other),
            }
        }
        other => panic!("unexpected {:?}", other),
    }
}

#[test]
fn parse_select_star() {
    match parse_cmd("SELECT * FROM people").unwrap() {
        Command::Select { attrs, conditions, .. } => {
            assert_eq!(attrs, vec!["*".to_string()]);
            assert!(conditions.is_empty());
        }
        other => panic!("unexpected {:?}", other),
    }
}

#[test]
fn parse_select_function_item_unsupported() {
    assert!(matches!(parse_cmd("SELECT COUNT(id) FROM people"), Err(CmdError::UnsupportedExpr(_))));
}

#[test]
fn parse_condition_with_literal_on_left_unsupported() {
    match parse_cmd("SELECT * FROM people WHERE 1 = id") {
        Err(CmdError::UnsupportedExpr(m)) => assert!(m.contains("Value"), "{}", m),
        other => panic!("unexpected {:?}", other),
    }
}

#[test]
fn parse_condition_with_other_operator_unsupported() {
    match parse_cmd("SELECT * FROM people WHERE id + 1") {
        Err(CmdError::UnsupportedExpr(m)) => assert_eq!(m, "Plus"),
        other => panic!("unexpected {:?}", other),
    }
}

#[test]
fn parse_union_is_non_select() {
    match parse_cmd("SELECT id FROM a UNION SELECT id FROM b") {
        Err(CmdError::Unsupported(m)) => assert_eq!(m, "non-SELECT query"),
        other => panic!("unexpected {:?}", other),
    }
}

#[test]
fn parse_update_and_delete() {
    match parse_cmd("UPDATE people SET age = 31, name = 'Al' WHERE id = 1").unwrap() {
        Command::Update { table, updates, conditions } => {
            assert_eq!(table, "people");
            assert_eq!(updates.len(), 2);
            assert_eq!(updates[0].name, "age");
            assert!(matches!(updates[0].value, Value::Int(31)));
            assert_eq!(conditions.len(), 1);
        }
        other => panic!("unexpected {:?}", other),
    }
    match parse_cmd("DELETE FROM people").unwrap() {
        Command::Delete { table, conditions } => {
            assert_eq!(table, "people");
            assert!(conditions.is_empty());
        }
        other => panic!("unexpected {:?}", other),
    }
}

#[test]
fn parse_drop_and_show() {
    assert!(matches!(parse_cmd("DROP TABLE people").unwrap(), Command::DropTable(n) if n == "people"));
    assert!(matches!(parse_cmd("SHOW TABLES").unwrap(), Command::ShowTables));
}

#[test]
fn parse_empty_and_malformed() {
    assert!(matches!(parse_cmd(""), Err(CmdError::Empty)));
    assert_eq!(parse_cmd("").unwrap_err().to_string(), "empty input");
    assert!(matches!(parse_cmd("SELEC id FROM t"), Err(CmdError::Syntax(_))));
}

#[test]
fn parse_other_statement_unsupported() {
    match parse_cmd("BEGIN") {
        Err(CmdError::Unsupported(m)) => assert!(!m.is_empty()),
        other => panic!("unexpected {:?}", other),
    }
}

#[test]
fn parse_cmd_takes_first_statement() {
    match parse_cmd("DROP TABLE a; SELECT x FROM b WHERE x = 'q'").unwrap() {
        Command::DropTable(name) => assert_eq!(name, "a"),
        other => panic!("unexpected {:?}", other),
    }
    match parse_cmd("SELECT x FROM b WHERE x = 'q'; DROP TABLE a").unwrap() {
        Command::Select { table, attrs, conditions } => {
            assert_eq!(table, "b");
            assert_eq!(attrs, vec!["x".to_string()]);
            assert_eq!(conditions.len(), 1);
            assert!(matches!(&conditions[0], Condition::Compare { attr, value: Value::VarChar(v), op: Operator::Eq } if attr == "x" && v == "q"));
        }
        other => panic!("unexpected {:?}", other),
    }
    assert!(matches!(parse_cmd("SELEC"), Err(CmdError::Syntax(_))));
    assert!(matches!(parse_cmd(""), Err(CmdError::Empty)));
}

#[test]
fn convert_statement_drop_without_name() {
    let stmt = SqlStatement::Drop { names: vec![] };
    match convert_statement(&stmt) {
        Err(CmdError::Syntax(m)) => assert_eq!(m, "missing table name"),
        other => panic!("unexpected {:?}", other),
    }
}

#[test]
fn convert_statement_delete_without_table() {
    let stmt = SqlStatement::Delete { from: vec![], selection: None };
    match convert_statement(&stmt) {
        Err(CmdError::Syntax(m)) => assert_eq!(m, "missing table in DELETE"),
        other => panic!("unexpected {:?}", other),
    }
}

#[test]
fn convert_data_types_and_names() {
    assert!(matches!(convert_data_type(&SqlDataType::Integer(Some(11))), Ok(Type::Int)));
    assert!(matches!(convert_data_type(&SqlDataType::Int(None)), Ok(Type::Int)));
    let v = SqlDataType::Varchar { length: Some(SqlCharLength::Integer { length: 20, unit: None }), debug: "Varchar(..)".to_string() };
    assert!(matches!(convert_data_type(&v), Ok(Type::VarChar(20))));
    let m = SqlDataType::Varchar { length: Some(SqlCharLength::Max), debug: "Varchar(Some(Max))".to_string() };
    match convert_data_type(&m) {
        Err(CmdError::Unsupported(t)) => assert_eq!(t, "data type Varchar(Some(Max))"),
        other => panic!("unexpected {:?}", other),
    }
    let parts = vec![SqlNamePart::Identifier("t".to_string()), SqlNamePart::Identifier("col".to_string())];
    assert_eq!(column_name(&parts), "col");
    assert_eq!(column_name(&vec![]), "");
    match parse_cmd("CREATE TABLE v (a VARCHAR)") {
        Err(CmdError::Unsupported(t)) => assert!(t.starts_with("data type Varchar(None)")),
        other => panic!("unexpected {:?}", other),
    }
    match parse_cmd("UPDATE t SET t.a = 3").unwrap() {
        Command::Update { updates, .. } => assert_eq!(updates[0].name, "a"),
        other => panic!("unexpected {:?}", other),
    }
}

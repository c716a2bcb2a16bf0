use constella_db::engine::{AlterOp, Engine};
use constella_db::types::{Attr, Condition, Data, Entity, Operator, Table, Type, Value};

/// An engine with `user_table` created and holding 10 rows (id 0-9).
fn setup_user_table() -> Engine {
    let mut engine = Engine::new();
    let _ = engine.drop_table("user_table");
    let user_table = Table {
        name: "user_table".to_string(),
        attrs: vec![
            Attr { name: "id".to_string(), data_type: Type::Int },
            Attr { name: "name".to_string(), data_type: Type::VarChar(100) },
            Attr { name: "password".to_string(), data_type: Type::VarChar(8) },
        ],
    };
    engine.create_table(&user_table).unwrap();
    for i in 0..10_i32 {
        engine
            .insert(&Entity {
                of: "user_table".to_string(),
                data: vec![
                    Data { name: "id".to_string(), value: Value::Int(i) },
                    Data { name: "name".to_string(), value: Value::VarChar(format!("user{}", i)) },
                    Data { name: "password".to_string(), value: Value::VarChar("12345678".to_string()) },
                ],
            })
            .unwrap();
    }
    engine
}

fn ids_of(rows: &[Entity]) -> Vec<i32> {
    rows.iter()
        .map(|r| {
            if let Value::Int(v) = r.data.iter().find(|d| d.name == "id").unwrap().value {
                v
            } else {
                panic!("expected Int")
            }
        })
        .collect()
}

fn eq_id(v: i32) -> Condition {
    Condition::Compare { attr: "id".to_string(), value: Value::Int(v), op: Operator::Eq }
}

#[test]
fn create_table_succeeds() {
    let mut engine = Engine::new();
    let _ = engine.drop_table("ddl_test");
    let table = Table { name: "ddl_test".to_string(), attrs: vec![Attr { name: "id".to_string(), data_type: Type::Int }] };
    assert!(engine.create_table(&table).is_ok());
    assert!(engine.select("ddl_test", vec!["*"], vec![]).is_ok());
    let _ = engine.drop_table("ddl_test");
}

#[test]
fn create_table_duplicate_errors() {
    let mut engine = Engine::new();
    let _ = engine.drop_table("dup_test");
    let table = Table { name: "dup_test".to_string(), attrs: vec![Attr { name: "id".to_string(), data_type: Type::Int }] };
    engine.create_table(&table).unwrap();
    let result = engine.create_table(&table);
    assert!(result.is_err());
    assert!(result.unwrap_err().contains("already exists"));
    let _ = engine.drop_table("dup_test");
}

#[test]
fn drop_table_succeeds() {
    let mut engine = Engine::new();
    let _ = engine.drop_table("drop_test");
    let table = Table { name: "drop_test".to_string(), attrs: vec![Attr { name: "id".to_string(), data_type: Type::Int }] };
    engine.create_table(&table).unwrap();
    assert!(engine.drop_table("drop_test").is_ok());
    assert!(engine.select("drop_test", vec!["*"], vec![]).is_err());
}

#[test]
fn drop_nonexistent_table_errors() {
    let mut engine = Engine::new();
    let result = engine.drop_table("no_such_table");
    assert!(result.is_err());
}

#[test]
fn alter_add_column_succeeds() {
    let mut engine = setup_user_table();
    let result = engine.alter_table(
        "user_table",
        AlterOp::AddColumn(Attr { name: "email".to_string(), data_type: Type::VarChar(255) }),
    );
    assert!(result.is_ok(), "{:?}", result);
    let rows = engine.select("user_table", vec!["email"], vec![]);
    assert!(rows.is_ok());
}

#[test]
fn alter_add_duplicate_column_errors() {
    let mut engine = setup_user_table();
    let result = engine.alter_table("user_table", AlterOp::AddColumn(Attr { name: "id".to_string(), data_type: Type::Int }));
    assert!(result.is_err());
    assert!(result.unwrap_err().contains("already exists"));
}

#[test]
fn alter_drop_column_succeeds() {
    let mut engine = setup_user_table();
    let result = engine.alter_table("user_table", AlterOp::DropColumn("password".to_string()));
    assert!(result.is_ok(), "{:?}", result);
    assert!(engine.select("user_table", vec!["password"], vec![]).is_err());
}

#[test]
fn alter_drop_nonexistent_column_errors() {
    let mut engine = setup_user_table();
    let result = engine.alter_table("user_table", AlterOp::DropColumn("no_col".to_string()));
    assert!(result.is_err());
}

#[test]
fn alter_drop_last_column_errors() {
    let mut engine = Engine::new();
    let _ = engine.drop_table("single_col");
    let table = Table { name: "single_col".to_string(), attrs: vec![Attr { name: "only".to_string(), data_type: Type::Int }] };
    engine.create_table(&table).unwrap();
    let result = engine.alter_table("single_col", AlterOp::DropColumn("only".to_string()));
    assert!(result.is_err());
    assert!(result.unwrap_err().contains("drop the table instead"));
    let _ = engine.drop_table("single_col");
}

#[test]
fn alter_rename_column_succeeds() {
    let mut engine = setup_user_table();
    let result = engine.alter_table(
        "user_table",
        AlterOp::RenameColumn { from: "password".to_string(), to: "passwd".to_string() },
    );
    assert!(result.is_ok(), "{:?}", result);
    assert!(engine.select("user_table", vec!["passwd"], vec![]).is_ok());
    assert!(engine.select("user_table", vec!["password"], vec![]).is_err());
}

#[test]
fn alter_rename_to_existing_column_errors() {
    let mut engine = setup_user_table();
    let result = engine.alter_table("user_table", AlterOp::RenameColumn { from: "name".to_string(), to: "id".to_string() });
    assert!(result.is_err());
    assert!(result.unwrap_err().contains("already exists"));
}

#[test]
fn modify_column_type_int_to_varchar() {
    let mut engine = setup_user_table();
    let result = engine.alter_table(
        "user_table",
        AlterOp::ModifyColumnType { name: "id".to_string(), new_type: Type::VarChar(20) },
    );
    assert!(result.is_ok(), "{:?}", result);
    let rows = engine.select("user_table", vec!["id"], vec![]).unwrap();
    for row in &rows {
        let id_val = row.data.iter().find(|d| d.name == "id").unwrap();
        assert!(matches!(id_val.value, Value::VarChar(_)), "Expected VarChar after cast, got {:?}", id_val.value);
    }
}

#[test]
fn modify_column_type_varchar_to_varchar_wider() {
    let mut engine = setup_user_table();
    let result = engine.alter_table(
        "user_table",
        AlterOp::ModifyColumnType { name: "name".to_string(), new_type: Type::VarChar(255) },
    );
    assert!(result.is_ok(), "{:?}", result);
    assert!(engine.select("user_table", vec!["name"], vec![]).is_ok());
}

#[test]
fn modify_column_type_nonexistent_column_errors() {
    let mut engine = setup_user_table();
    let result = engine.alter_table("user_table", AlterOp::ModifyColumnType { name: "ghost".to_string(), new_type: Type::Int });
    assert!(result.is_err());
    assert!(result.unwrap_err().contains("doesn't exist"));
}

#[test]
fn modify_column_type_nonexistent_table_errors() {
    let mut engine = Engine::new();
    let result = engine.alter_table(
        "no_such_table",
        AlterOp::ModifyColumnType { name: "id".to_string(), new_type: Type::VarChar(10) },
    );
    assert!(result.is_err());
    assert!(result.unwrap_err().contains("doesn't exist"));
}

#[test]
fn insert_ten_rows() {
    let engine = setup_user_table();
    let rows = engine.select("user_table", vec!["*"], vec![]).unwrap();
    assert_eq!(rows.len(), 10);
}

#[test]
fn select_all_returns_all_rows() {
    let engine = setup_user_table();
    let rows = engine.select("user_table", vec!["*"], vec![]).unwrap();
    assert_eq!(rows.len(), 10);
}

#[test]
fn select_with_eq_condition() {
    let engine = setup_user_table();
    let rows = engine.select("user_table", vec!["id", "name"], vec![eq_id(5)]).unwrap();
    assert_eq!(rows.len(), 1);
    let id = rows[0].data.iter().find(|d| d.name == "id").unwrap();
    assert!(matches!(id.value, Value::Int(5)));
}

#[test]
fn select_with_and_condition() {
    let engine = setup_user_table();
    let rows = engine
        .select(
            "user_table",
            vec!["id", "name"],
            vec![Condition::And(
                Box::new(Condition::Compare { attr: "id".to_string(), value: Value::Int(3), op: Operator::Gt }),
                Box::new(Condition::Compare { attr: "id".to_string(), value: Value::Int(7), op: Operator::Lt }),
            )],
        )
        .unwrap();
    assert_eq!(rows.len(), 3);
    assert_eq!(ids_of(&rows), vec![4, 5, 6]);
}

#[test]
fn select_with_or_condition() {
    let engine = setup_user_table();
    let rows = engine
        .select("user_table", vec!["id", "name"], vec![Condition::Or(Box::new(eq_id(4)), Box::new(eq_id(8)))])
        .unwrap();
    assert_eq!(rows.len(), 2);
    let ids = ids_of(&rows);
    assert!(ids.contains(&4));
    assert!(ids.contains(&8));
}

#[test]
fn update_single_row() {
    let mut engine = setup_user_table();
    engine
        .update(
            "user_table",
            vec![Data { name: "name".to_string(), value: Value::VarChar("UPDATED".to_string()) }],
            vec![eq_id(5)],
        )
        .unwrap();
    let rows = engine.select("user_table", vec!["id", "name"], vec![eq_id(5)]).unwrap();
    assert_eq!(rows.len(), 1);
    let name = rows[0].data.iter().find(|d| d.name == "name").unwrap();
    assert!(matches!(&name.value, Value::VarChar(s) if s == "UPDATED"));
}

#[test]
fn delete_rows_with_lt_condition() {
    let mut engine = setup_user_table();
    engine
        .delete("user_table", vec![Condition::Compare { attr: "id".to_string(), value: Value::Int(3), op: Operator::Lt }])
        .unwrap();
    let rows = engine.select("user_table", vec!["id", "name"], vec![]).unwrap();
    assert_eq!(rows.len(), 7);
    let ids = ids_of(&rows);
    assert!(!ids.contains(&0));
    assert!(!ids.contains(&1));
    assert!(!ids.contains(&2));
}

fn insert_null_row(engine: &mut Engine) {
    engine
        .insert(&Entity {
            of: "user_table".to_string(),
            data: vec![
                Data { name: "id".to_string(), value: Value::Int(99) },
                Data { name: "name".to_string(), value: Value::Null },
                Data { name: "password".to_string(), value: Value::Null },
            ],
        })
        .unwrap();
}

#[test]
fn insert_null_value() {
    let mut engine = setup_user_table();
    insert_null_row(&mut engine);
    let rows = engine.select("user_table", vec!["id", "name", "password"], vec![eq_id(99)]).unwrap();
    assert_eq!(rows.len(), 1);
    let name = rows[0].data.iter().find(|d| d.name == "name").unwrap();
    assert!(matches!(name.value, Value::Null));
    let password = rows[0].data.iter().find(|d| d.name == "password").unwrap();
    assert!(matches!(password.value, Value::Null));
}

#[test]
fn null_does_not_match_conditions() {
    let mut engine = setup_user_table();
    insert_null_row(&mut engine);
    let rows = engine
        .select("user_table", vec!["id"], vec![Condition::Compare { attr: "name".to_string(), value: Value::Null, op: Operator::Eq }])
        .unwrap();
    assert_eq!(rows.len(), 0);
}

#[test]
fn update_to_null() {
    let mut engine = setup_user_table();
    engine
        .update("user_table", vec![Data { name: "name".to_string(), value: Value::Null }], vec![eq_id(3)])
        .unwrap();
    let rows = engine.select("user_table", vec!["id", "name"], vec![eq_id(3)]).unwrap();
    assert_eq!(rows.len(), 1);
    let name = rows[0].data.iter().find(|d| d.name == "name").unwrap();
    assert!(matches!(name.value, Value::Null));
}

#[test]
fn add_column_fills_null_for_existing_rows() {
    let mut engine = setup_user_table();
    engine
        .alter_table("user_table", AlterOp::AddColumn(Attr { name: "email".to_string(), data_type: Type::VarChar(255) }))
        .unwrap();
    let rows = engine.select("user_table", vec!["email"], vec![]).unwrap();
    assert_eq!(rows.len(), 10);
    for row in &rows {
        let email = row.data.iter().find(|d| d.name == "email").unwrap();
        assert!(matches!(email.value, Value::Null));
    }
}

#[test]
fn row_count_follows_inserts() {
    let engine = setup_user_table();
    let table = engine.get_table("user_table").unwrap().clone();
    assert_eq!(engine.row_count(&table), Ok(10));
    let empty = Table { name: "user_table".to_string(), attrs: vec![] };
    assert_eq!(engine.row_count(&empty), Ok(0));
    let missing = Table {
        name: "nope".to_string(),
        attrs: vec![Attr { name: "id".to_string(), data_type: Type::Int }],
    };
    assert!(engine.row_count(&missing).is_err());
}

#[test]
fn select_after_delete_finds_nothing() {
    let mut engine = setup_user_table();
    let cond = || vec![Condition::Compare { attr: "id".to_string(), value: Value::Int(6), op: Operator::Ge }];
    assert_eq!(engine.delete("user_table", cond()), Ok(4));
    assert_eq!(engine.select("user_table", vec!["*"], cond()).unwrap().len(), 0);
    assert_eq!(engine.select("user_table", vec!["id"], vec![]).unwrap().len(), 6);
}

#[test]
fn update_touches_only_matching_rows() {
    let mut engine = setup_user_table();
    let before = engine.select("user_table", vec!["*"], vec![]).unwrap();
    let cond = vec![Condition::Compare { attr: "id".to_string(), value: Value::Int(2), op: Operator::Le }];
    let updates = vec![
        Data { name: "name".to_string(), value: Value::VarChar("first".to_string()) },
        Data { name: "name".to_string(), value: Value::VarChar("last".to_string()) },
    ];
    assert_eq!(engine.update("user_table", updates, cond), Ok(3));
    let after = engine.select("user_table", vec!["*"], vec![]).unwrap();
    assert_eq!(after.len(), before.len());
    for (b, a) in before.iter().zip(after.iter()) {
        if let Value::Int(id) = b.data[0].value {
            if id <= 2 {
                assert!(matches!(&a.data[1].value, Value::VarChar(s) if s == "last"));
                assert_eq!(format!("{:?}", a.data[0]), format!("{:?}", b.data[0]));
            } else {
                assert_eq!(format!("{:?}", a), format!("{:?}", b));
            }
        }
    }
}

#[test]
fn create_table_with_repeated_column_names() {
    let mut engine = Engine::new();
    let table = Table {
        name: "twice".to_string(),
        attrs: vec![
            Attr { name: "a".to_string(), data_type: Type::Int },
            Attr { name: "a".to_string(), data_type: Type::Int },
            Attr { name: "b".to_string(), data_type: Type::Int },
        ],
    };
    assert_eq!(engine.create_table(&table), Ok(()));
    assert_eq!(engine.get_table("twice").unwrap().attrs.len(), 3);
    let row = Entity {
        of: "twice".to_string(),
        data: vec![
            Data { name: "a".to_string(), value: Value::Int(1) },
            Data { name: "b".to_string(), value: Value::Int(2) },
        ],
    };
    assert!(engine.insert(&row).is_ok());
    let rows = engine.select("twice", vec!["*"], vec![]).unwrap();
    assert_eq!(rows.len(), 1);
    assert!(matches!(rows[0].data[0].value, Value::Int(1)));
    assert!(matches!(rows[0].data[1].value, Value::Int(1)));
    assert!(matches!(rows[0].data[2].value, Value::Int(2)));
    assert_eq!(engine.alter_table("twice", AlterOp::DropColumn("a".to_string())), Ok(()));
    let left = engine.get_table("twice").unwrap();
    assert_eq!(left.attrs.len(), 1);
    assert_eq!(left.attrs[0].name, "b");
}

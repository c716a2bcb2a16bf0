use constella_db::engine::Engine;
use constella_db::executor::execute;
use constella_db::parser::parse_cmd;

fn run(engine: &mut Engine, sql: &str) -> String {
    let cmd = parse_cmd(sql).unwrap();
    execute(engine, cmd).to_string()
}

fn people_engine() -> Engine {
    let mut engine = Engine::new();
    let _ = engine.drop_table("people");
    run(&mut engine, "CREATE TABLE people (id INT, name VARCHAR(50), age INT)");
    engine
}

fn three_people() -> Engine {
    let mut engine = people_engine();
    for sql in [
        "INSERT INTO people (id, name, age) VALUES (1, 'Alice', 30)",
        "INSERT INTO people (id, name, age) VALUES (2, 'Bob', 17)",
        "INSERT INTO people (id, name, age) VALUES (3, 'Charlie', 25)",
    ] {
        run(&mut engine, sql);
    }
    engine
}

#[test]
fn test_create_table() {
    let mut engine = Engine::new();
    let _ = engine.drop_table("people");
    let result = run(&mut engine, "CREATE TABLE people (id INT, name VARCHAR(50), age INT)");
    assert!(result.contains("OK") && result.contains("created"));
}

#[test]
fn test_insert_and_select() {
    let mut engine = people_engine();
    let result = run(&mut engine, "INSERT INTO people (id, name, age) VALUES (1, 'Alice', 30)");
    assert!(result.contains("OK"));
    let result = run(&mut engine, "SELECT * FROM people WHERE id = 1");
    assert!(result.contains("Alice") && result.contains("30"));
}

#[test]
fn test_update() {
    let mut engine = people_engine();
    run(&mut engine, "INSERT INTO people (id, name, age) VALUES (1, 'Alice', 30)");
    let result = run(&mut engine, "UPDATE people SET age = 31 WHERE name = 'Alice'");
    assert!(result.contains("OK") && result.contains("updated"));
    let result = run(&mut engine, "SELECT age FROM people WHERE name = 'Alice'");
    assert!(result.contains("31"));
}

#[test]
fn test_delete() {
    let mut engine = people_engine();
    run(&mut engine, "INSERT INTO people (id, name, age) VALUES (1, 'Bob', 17)");
    let result = run(&mut engine, "DELETE FROM people WHERE age < 18");
    assert!(result.contains("OK") && result.contains("deleted"));
    let result = run(&mut engine, "SELECT * FROM people");
    assert!(!result.contains("Bob"));
}

#[test]
fn test_complex_queries() {
    let mut engine = three_people();
    let result = run(&mut engine, "SELECT * FROM people WHERE name = 'Bob' OR age >= 25");
    println!("Query result: {}", result);
    assert!(result.contains("Bob"), "Bob should be in results (name = 'Bob')");
    assert!(result.contains("Charlie"), "Charlie should be in results (age >= 25)");
    assert!(result.contains("Alice"), "Alice should be in results (age 30 >= 25)");
}

#[test]
fn test_or_condition() {
    let mut engine = three_people();
    let result = run(&mut engine, "SELECT * FROM people WHERE name = 'Bob' OR age >= 30");
    println!("Query result: {}", result);
    assert!(result.contains("Bob"), "Bob should be in results (name = 'Bob')");
    assert!(result.contains("Alice"), "Alice should be in results (age 30 >= 30)");
    assert!(!result.contains("Charlie"), "Charlie should NOT be in results (age 25 < 30, name != 'Bob')");
}

#[test]
fn test_and_condition() {
    let mut engine = three_people();
    let result = run(&mut engine, "SELECT * FROM people WHERE age > 18 AND age < 30");
    println!("Query result: {}", result);
    assert!(result.contains("Charlie"), "Charlie should be in results (age 25 between 18 and 30)");
    assert!(!result.contains("Alice"), "Alice should NOT be in results (age 30 is not < 30)");
    assert!(!result.contains("Bob"), "Bob should NOT be in results (age 17 is not > 18)");
}

#[test]
fn test_complex_queries_fixed() {
    let mut engine = three_people();
    let result = run(&mut engine, "SELECT * FROM people WHERE name = 'Bob' OR age >= 25");
    println!("Query result: {}", result);
    assert!(result.contains("Bob"), "Bob should be in results");
    assert!(result.contains("Charlie"), "Charlie should be in results");
    assert!(result.contains("Alice"), "Alice should be in results");
}

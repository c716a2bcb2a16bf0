use constella_db::cluster::{
    client_answer, exec_message, job_complete_reply, plan_distribution, split_rows, Instruction, JobTable,
};
use constella_db::command::Command;
use constella_db::protocol::{Message, MessageType};
use constella_db::types::{Data, Entity, Value};

fn row(i: i32) -> Entity {
    Entity { of: "t".to_string(), data: vec![Data { name: "id".to_string(), value: Value::Int(i) }] }
}

fn ids(v: &[Entity]) -> Vec<i32> {
    v.iter().map(|e| if let Value::Int(i) = e.data[0].value { i } else { panic!("expected Int") }).collect()
}

fn names(v: &[&str]) -> Vec<String> {
    v.iter().map(|s| s.to_string()).collect()
}

#[test]
fn instruction_waits_on_each_follower_once() {
    let mut inst = Instruction::new("i1".to_string(), &names(&["a", "b", "a"]));
    assert_eq!(inst.nodes_status.len(), 2);
    assert!(!inst.is_finished());
    inst.mark_done("a");
    assert!(!inst.is_finished());
    inst.mark_done("zzz");
    assert!(!inst.is_finished());
    inst.mark_done("b");
    assert!(inst.is_finished());
}

#[test]
fn instruction_without_followers_is_finished() {
    let inst = Instruction::new("i0".to_string(), &vec![]);
    assert!(inst.is_finished());
}

#[test]
fn instruction_collects_rows_and_message() {
    let mut inst = Instruction::new("i2".to_string(), &names(&["a", "b"]));
    assert!(inst.final_payload().is_empty());
    inst.absorb(Some(vec![row(1)]), None);
    inst.absorb(Some(vec![row(2), row(3)]), None);
    assert_eq!(ids(inst.response_rows.as_ref().unwrap()), vec![1, 2, 3]);
    let text = String::from_utf8(inst.final_payload()).unwrap();
    assert_eq!(text, "OK: 3 row(s)\n  id=Int(1)\n  id=Int(2)\n  id=Int(3)");
    inst.absorb(None, Some("first".to_string()));
    inst.absorb(None, Some("Error: boom".to_string()));
    assert_eq!(inst.final_payload(), b"Error: boom".to_vec());
    let answer = client_answer(&inst, "leader-1");
    assert_eq!(answer.id, "i2");
    assert_eq!(answer.node_id, "leader-1");
    assert_eq!(answer.payload, b"Error: boom".to_vec());
    assert!(matches!(answer.msg_type, MessageType::Response { sucess: true, message: None, data: None }));
}

#[test]
fn instruction_retains_used_followers() {
    let mut inst = Instruction::new("i3".to_string(), &names(&["a", "b", "c"]));
    inst.retain_used(&names(&["c", "a"]));
    let left: Vec<String> = inst.nodes_status.iter().map(|n| n.id.clone()).collect();
    assert_eq!(left, names(&["a", "c"]));
}

#[test]
fn split_rows_ceil_chunks() {
    let rows: Vec<Entity> = (0..10).map(row).collect();
    let chunks = split_rows(&rows, &names(&["a", "b", "c"]));
    let sizes: Vec<usize> = chunks.iter().map(|(_, c)| c.len()).collect();
    assert_eq!(sizes, vec![4, 4, 2]);
    assert_eq!(chunks[0].0, "a");
    assert_eq!(chunks[2].0, "c");
    let all: Vec<i32> = chunks.iter().flat_map(|(_, c)| ids(c)).collect();
    assert_eq!(all, (0..10).collect::<Vec<i32>>());
}

#[test]
fn split_rows_fewer_rows_than_followers() {
    let rows: Vec<Entity> = (0..2).map(row).collect();
    let chunks = split_rows(&rows, &names(&["a", "b", "c", "d"]));
    assert_eq!(chunks.len(), 2);
    assert_eq!(chunks[1].0, "b");
    assert_eq!(ids(&chunks[1].1), vec![1]);
}

#[test]
fn plan_distribution_insert_and_others() {
    let plan = plan_distribution(&Command::Insert(row(5)), &names(&["a", "b"]));
    assert_eq!(plan.len(), 1);
    assert_eq!(plan[0].0, "a");
    assert!(matches!(&plan[0].1, Command::Insert(e) if ids(std::slice::from_ref(e)) == vec![5]));
    assert!(plan_distribution(&Command::Insert(row(5)), &vec![]).is_empty());
    let plan = plan_distribution(&Command::DropTable("t".to_string()), &names(&["a", "b"]));
    assert_eq!(plan.len(), 2);
    assert!(matches!(&plan[1].1, Command::DropTable(n) if n == "t"));
}

#[test]
fn exec_message_carries_command() {
    let m = Message::new("i9".to_string(), MessageType::Lead { followers: vec![] }, "gw".to_string())
        .with_command(Command::ShowTables);
    let e = exec_message(&m).unwrap();
    assert_eq!(e.id, "i9");
    assert_eq!(e.node_id, "gw");
    assert!(matches!(e.msg_type, MessageType::ExecCmd));
    assert!(matches!(e.command, Some(Command::ShowTables)));
    let bare = Message::new("i9".to_string(), MessageType::Query, "gw".to_string());
    assert!(exec_message(&bare).is_none());
}

#[test]
fn job_table_lookup_after_insert() {
    let mut t = JobTable::new();
    assert!(t.get("j1").is_none());
    t.insert("j1", "inst-a");
    t.insert("j2", "inst-b");
    t.insert("j1", "inst-c");
    assert_eq!(t.get("j1").as_deref(), Some("inst-c"));
    assert_eq!(t.get("j2").as_deref(), Some("inst-b"));
    assert_eq!(t.entries.len(), 2);
    let (inst, m) = job_complete_reply(&t, "j2", "node-7", b"payload".to_vec()).unwrap();
    assert_eq!(inst, "inst-b");
    assert_eq!(m.id, "inst-b");
    assert_eq!(m.node_id, "node-7");
    assert_eq!(m.payload, b"payload".to_vec());
    assert!(job_complete_reply(&t, "nope", "node-7", vec![]).is_none());
}

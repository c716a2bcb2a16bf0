use constella_db::round_robin::{Node, QueryJob, Scheduler as RoundRobin};
use constella_db::tick_scheduler::{Job, Scheduler as TickScheduler, WorkerNode};

fn node(id: u64, capacity: usize) -> Node {
    Node { id, active: true, capacity, current_load: 0 }
}

fn query(id: u64, q: &str) -> QueryJob {
    QueryJob { id, query: q.to_string() }
}

#[test]
fn round_robin_dispatch_scenario() {
    let mut s = RoundRobin::new(vec![node(1, 2), node(2, 2), node(3, 2)]);
    assert_eq!(s.schedule_query(query(1, "SELECT * FROM users")), Some(1));
    assert_eq!(s.schedule_query(query(2, "SELECT * FROM orders")), Some(2));
    assert_eq!(s.schedule_query(query(3, "SELECT * FROM products")), Some(3));
    assert_eq!(s.next_node, 0);
    s.fail_node(2);
    assert!(!s.nodes[1].active);
    assert_eq!(s.schedule_query(query(4, "SELECT * FROM payments")), Some(1));
    assert_eq!(s.schedule_query(query(5, "SELECT * FROM logs")), Some(3));
    assert_eq!(s.nodes[0].current_load, 2);
    assert_eq!(s.nodes[2].current_load, 2);
    s.complete_job(1);
    assert_eq!(s.nodes[0].current_load, 1);
    s.recover_node(2);
    assert!(s.nodes[1].active);
    assert_eq!(s.schedule_query(query(6, "SELECT * FROM inventory")), Some(1));
}

#[test]
fn round_robin_refuses_when_full() {
    let mut s = RoundRobin::new(vec![node(1, 1), node(2, 1)]);
    assert_eq!(s.schedule_query(query(1, "a")), Some(1));
    assert_eq!(s.schedule_query(query(2, "b")), Some(2));
    let before = s.next_node;
    assert_eq!(s.schedule_query(query(3, "c")), None);
    assert_eq!(s.next_node, before);
    assert_eq!(s.nodes[0].current_load, 1);
    assert_eq!(s.nodes[1].current_load, 1);
}

#[test]
fn round_robin_empty_cluster_refuses() {
    let mut s = RoundRobin::new(vec![]);
    assert_eq!(s.schedule_query(query(1, "a")), None);
}

#[test]
fn round_robin_complete_never_below_zero() {
    let mut s = RoundRobin::new(vec![node(5, 3)]);
    s.complete_job(5);
    assert_eq!(s.nodes[0].current_load, 0);
    s.complete_job(42);
    assert_eq!(s.nodes[0].current_load, 0);
}

#[test]
fn round_robin_node_line() {
    let n = Node { id: 7, active: false, capacity: 4, current_load: 2 };
    assert_eq!(n.to_string(), "Node 7 | active=false | load=2/4");
    let s = RoundRobin::new(vec![n]);
    assert_eq!(
        s.cluster_status_lines(),
        vec![
            "\n===== CLUSTER STATUS =====".to_string(),
            "Node 7 | active=false | load=2/4".to_string(),
            "==========================\n".to_string(),
        ]
    );
}

fn worker(id: usize, cap: u32) -> WorkerNode {
    WorkerNode { id, cpu_capacity: cap, used_cpu: 0, active: true, current_job: None }
}

fn all_ids(s: &TickScheduler) -> Vec<u32> {
    let mut v: Vec<u32> = s.pending.iter().map(|j| j.id).collect();
    v.extend(s.completed.iter().map(|j| j.id));
    v.extend(s.workers.iter().filter_map(|w| w.current_job.map(|j| j.id)));
    v.sort();
    v
}

#[test]
fn tick_scheduler_scenario() {
    let mut s = TickScheduler::new(2, vec![worker(1, 4), worker(2, 6)]);
    s.submit_job(Job { id: 1, required_cpu: 2, remaining_time: 8 });
    s.submit_job(Job { id: 2, required_cpu: 3, remaining_time: 5 });
    s.submit_job(Job { id: 3, required_cpu: 5, remaining_time: 7 });
    for tick in 1..10 {
        if tick == 4 {
            s.fail_node(2);
        }
        s.schedule_tick();
        assert_eq!(all_ids(&s), vec![1, 2, 3]);
        assert!(s.workers.iter().all(|w| w.current_job.is_none()));
    }
    let done: Vec<u32> = s.completed.iter().map(|j| j.id).collect();
    assert_eq!(done, vec![2, 1]);
    let left: Vec<(u32, u32)> = s.pending.iter().map(|j| (j.id, j.remaining_time)).collect();
    assert_eq!(left, vec![(3, 5)]);
    assert!(!s.workers[1].active);
    assert_eq!(s.workers[0].used_cpu, 0);
}

#[test]
fn tick_scheduler_first_tick() {
    let mut s = TickScheduler::new(2, vec![worker(1, 4), worker(2, 6)]);
    s.submit_job(Job { id: 1, required_cpu: 2, remaining_time: 8 });
    s.submit_job(Job { id: 2, required_cpu: 3, remaining_time: 5 });
    s.submit_job(Job { id: 3, required_cpu: 5, remaining_time: 7 });
    s.schedule_tick();
    let q: Vec<(u32, u32)> = s.pending.iter().map(|j| (j.id, j.remaining_time)).collect();
    assert_eq!(q, vec![(3, 7), (1, 6), (2, 3)]);
}

#[test]
fn tick_scheduler_fail_requeues_running_job() {
    let mut s = TickScheduler::new(1, vec![WorkerNode {
        id: 9,
        cpu_capacity: 4,
        used_cpu: 3,
        active: true,
        current_job: Some(Job { id: 5, required_cpu: 3, remaining_time: 2 }),
    }]);
    s.fail_node(9);
    assert_eq!(s.pending.len(), 1);
    assert_eq!(s.pending[0].id, 5);
    assert_eq!(s.workers[0].used_cpu, 0);
    assert!(!s.workers[0].active);
    assert!(s.workers[0].current_job.is_none());
}

#[test]
fn tick_scheduler_can_accept() {
    let w = worker(1, 4);
    assert!(w.can_accept(&Job { id: 1, required_cpu: 4, remaining_time: 1 }));
    assert!(!w.can_accept(&Job { id: 1, required_cpu: 5, remaining_time: 1 }));
    let busy = WorkerNode { current_job: Some(Job { id: 2, required_cpu: 1, remaining_time: 1 }), ..w };
    assert!(!busy.can_accept(&Job { id: 1, required_cpu: 1, remaining_time: 1 }));
    let full = WorkerNode { used_cpu: u32::MAX, cpu_capacity: u32::MAX, ..w };
    assert!(!full.can_accept(&Job { id: 1, required_cpu: 1, remaining_time: 1 }));
}

#[test]
fn tick_scheduler_status_lines() {
    let mut s = TickScheduler::new(2, vec![worker(1, 4)]);
    s.submit_job(Job { id: 1, required_cpu: 2, remaining_time: 1 });
    s.schedule_tick();
    assert_eq!(
        s.status_lines(),
        vec![
            "\n=== STATUS ===".to_string(),
            "Pending: 0".to_string(),
            "Completed: 1".to_string(),
            "Node 1 Active=true CPU=0/4".to_string(),
            "==============\n".to_string(),
        ]
    );
}

#[test]
fn tick_keeps_finished_order_and_cuts_by_quantum() {
    let w = |id: usize, active: bool| WorkerNode { id, cpu_capacity: 10, used_cpu: 0, active, current_job: None };
    let mut s = TickScheduler::new(2, vec![w(1, true), w(2, false)]);
    s.submit_job(Job { id: 1, required_cpu: 1, remaining_time: 1 });
    s.submit_job(Job { id: 2, required_cpu: 1, remaining_time: 5 });
    s.schedule_tick();
    assert_eq!(s.completed.len(), 1);
    assert_eq!(s.completed[0].id, 1);
    assert_eq!(s.pending.len(), 1);
    assert_eq!(s.pending[0].remaining_time, 5);
    assert!(!s.workers[1].active);
    s.schedule_tick();
    assert_eq!(s.completed.len(), 1);
    assert_eq!(s.pending[0].remaining_time, 3);
    s.schedule_tick();
    s.schedule_tick();
    assert_eq!(s.completed.len(), 2);
    assert_eq!(s.completed[0].id, 1);
    assert_eq!(s.completed[1].id, 2);
    assert_eq!(s.completed[1].remaining_time, 0);
    assert_eq!(s.workers[0].used_cpu, 0);
}

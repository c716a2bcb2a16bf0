//! A time-sliced job scheduler: worker nodes with a CPU capacity take pending
//! jobs first-fit, run them for one quantum per tick, and hand back what is not
//! finished to the end of the queue.

use vstd::prelude::*;
use std::collections::VecDeque;
use vstd::multiset::Multiset;
use crate::text::{cat2, nat_digits, u64_to_string, usize_to_string};

verus! {

/// A job: the CPU it needs while it runs and the ticks it still has to run.
#[derive(Clone, Copy, Debug)]
pub struct Job {
    pub id: u32,
    pub required_cpu: u32,
    pub remaining_time: u32,
}

/// A worker node and the job it is running, if any.
#[derive(Clone, Copy, Debug)]
pub struct WorkerNode {
    pub id: usize,
    pub cpu_capacity: u32,
    pub used_cpu: u32,
    pub active: bool,
    pub current_job: Option<Job>,
}

/// Whether a worker can take a job: it is up, idle, and the job's CPU fits.
pub open spec fn accepts(w: WorkerNode, j: Job) -> bool {
    &&& w.active
    &&& w.current_job is None
    &&& w.used_cpu + j.required_cpu <= w.cpu_capacity
}

impl WorkerNode {
    /// Whether this worker can take `job`.
    pub fn can_accept(&self, job: &Job) -> (r: bool)
        ensures
            r == accepts(*self, *job),
    {
        self.active && self.current_job.is_none()
            && (self.used_cpu as u64) + (job.required_cpu as u64) <= (self.cpu_capacity as u64)
    }
}

/// The scheduler: the time slice, the queue of pending jobs, the finished
/// jobs in the order they finished, and the workers.
pub struct Scheduler {
    pub quantum: u32,
    pub pending: VecDeque<Job>,
    pub completed: Vec<Job>,
    pub workers: Vec<WorkerNode>,
}

pub struct SchedulerV {
    pub quantum: u32,
    pub pending: Seq<Job>,
    pub completed: Seq<Job>,
    pub workers: Seq<WorkerNode>,
}

impl View for Scheduler {
    type V = SchedulerV;

    open spec fn view(&self) -> SchedulerV {
        SchedulerV {
            quantum: self.quantum,
            pending: self.pending@,
            completed: self.completed@,
            workers: self.workers@,
        }
    }
}

/// `idx` is the first pending job that `w` accepts.
pub open spec fn first_fit(pending: Seq<Job>, w: WorkerNode, idx: int) -> bool {
    &&& 0 <= idx < pending.len()
    &&& accepts(w, pending[idx])
    &&& forall|j: int| 0 <= j < idx ==> !accepts(w, #[trigger] pending[j])
}

/// An idle worker takes the first pending job it accepts.
pub open spec fn assign(pending: Seq<Job>, w: WorkerNode) -> (Seq<Job>, WorkerNode) {
    if w.current_job is None && exists|idx: int| first_fit(pending, w, idx) {
        let idx = choose|idx: int| first_fit(pending, w, idx);
        let job = pending[idx];
        (pending.remove(idx), WorkerNode { used_cpu: (w.used_cpu + job.required_cpu) as u32, current_job: Some(job), ..w })
    } else {
        (pending, w)
    }
}

pub open spec fn min_u32(a: u32, b: u32) -> u32 {
    if a < b { a } else { b }
}

/// A worker runs its job for one quantum; the job is finished or goes back to
/// the end of the queue, and the worker is idle again.
pub open spec fn run(quantum: u32, pending: Seq<Job>, completed: Seq<Job>, w: WorkerNode) -> (Seq<Job>, Seq<Job>, WorkerNode) {
    match w.current_job {
        None => (pending, completed, w),
        Some(job) => {
            let left = (job.remaining_time - min_u32(quantum, job.remaining_time)) as u32;
            let ran = Job { remaining_time: left, ..job };
            let idle = WorkerNode { used_cpu: (w.used_cpu - job.required_cpu) as u32, current_job: None, ..w };
            if left == 0 {
                (pending, completed.push(ran), idle)
            } else {
                (pending.push(ran), completed, idle)
            }
        },
    }
}

/// One worker's part of a tick; a worker that is down does nothing.
pub open spec fn step_worker(quantum: u32, pending: Seq<Job>, completed: Seq<Job>, w: WorkerNode) -> (Seq<Job>, Seq<Job>, WorkerNode) {
    if !w.active {
        (pending, completed, w)
    } else {
        let (p, w1) = assign(pending, w);
        run(quantum, p, completed, w1)
    }
}

/// The state after the first `n` workers have had their part of a tick.
pub open spec fn tick_upto(quantum: u32, pending: Seq<Job>, completed: Seq<Job>, workers: Seq<WorkerNode>, n: int) -> (Seq<Job>, Seq<Job>, Seq<WorkerNode>)
    decreases n,
{
    if n <= 0 {
        (pending, completed, workers)
    } else {
        let (p, c, ws) = tick_upto(quantum, pending, completed, workers, n - 1);
        let (p2, c2, w2) = step_worker(quantum, p, c, ws[n - 1]);
        (p2, c2, ws.update(n - 1, w2))
    }
}

/// The state after a whole tick.
pub open spec fn tick_spec(s: SchedulerV) -> SchedulerV {
    let (p, c, ws) = tick_upto(s.quantum, s.pending, s.completed, s.workers, s.workers.len() as int);
    SchedulerV { quantum: s.quantum, pending: p, completed: c, workers: ws }
}

/// Every running worker holds at least the CPU of its job.
pub open spec fn tick_ready(workers: Seq<WorkerNode>) -> bool {
    forall|i: int| 0 <= i < workers.len() ==> match #[trigger] workers[i].current_job {
        Some(j) => workers[i].used_cpu >= j.required_cpu,
        None => true,
    }
}

/// The state after every worker with id `node_id` among the first `n` fails:
/// it goes down, its job goes back to the queue, and it holds no CPU.
pub open spec fn fail_upto(pending: Seq<Job>, workers: Seq<WorkerNode>, node_id: usize, n: int) -> (Seq<Job>, Seq<WorkerNode>)
    decreases n,
{
    if n <= 0 {
        (pending, workers)
    } else {
        let (p, ws) = fail_upto(pending, workers, node_id, n - 1);
        let w = ws[n - 1];
        if w.id == node_id {
            let p2 = match w.current_job {
                Some(j) => p.push(j),
                None => p,
            };
            (p2, ws.update(n - 1, WorkerNode { active: false, current_job: None, used_cpu: 0, ..w }))
        } else {
            (p, ws)
        }
    }
}

proof fn lemma_first_fit_unique(pending: Seq<Job>, w: WorkerNode, a: int, b: int)
    requires
        first_fit(pending, w, a),
        first_fit(pending, w, b),
    ensures
        a == b,
{
    if a < b {
        assert(!accepts(w, pending[a]));
    }
    if b < a {
        assert(!accepts(w, pending[b]));
    }
}

proof fn lemma_tick_upto_keeps_rest(quantum: u32, pending: Seq<Job>, completed: Seq<Job>, workers: Seq<WorkerNode>, n: int)
    requires
        0 <= n <= workers.len(),
    ensures
        tick_upto(quantum, pending, completed, workers, n).2.len() == workers.len(),
        forall|k: int| n <= k < workers.len() ==> #[trigger] tick_upto(quantum, pending, completed, workers, n).2[k] == workers[k],
    decreases n,
{
    if n > 0 {
        lemma_tick_upto_keeps_rest(quantum, pending, completed, workers, n - 1);
    }
}

proof fn lemma_fail_upto_keeps_rest(pending: Seq<Job>, workers: Seq<WorkerNode>, node_id: usize, n: int)
    requires
        0 <= n <= workers.len(),
    ensures
        fail_upto(pending, workers, node_id, n).1.len() == workers.len(),
        forall|k: int| n <= k < workers.len() ==> #[trigger] fail_upto(pending, workers, node_id, n).1[k] == workers[k],
    decreases n,
{
    if n > 0 {
        lemma_fail_upto_keeps_rest(pending, workers, node_id, n - 1);
    }
}

/// The index of the first pending job that `w` accepts.
fn first_accepted(w: &WorkerNode, pending: &VecDeque<Job>) -> (r: Option<usize>)
    ensures
        match r {
            Some(i) => first_fit(pending@, *w, i as int),
            None => forall|x: int| !first_fit(pending@, *w, x),
        },
{
    let mut k: usize = 0;
    while k < pending.len()
        invariant
            k <= pending@.len(),
            forall|j: int| 0 <= j < k ==> !accepts(*w, #[trigger] pending@[j]),
        decreases pending@.len() - k,
    {
        if w.can_accept(&pending[k]) {
            return Some(k);
        }
        k = k + 1;
    }
    None
}

impl Scheduler {
    /// A scheduler with the given time slice and workers, and no jobs.
    pub fn new(quantum: u32, workers: Vec<WorkerNode>) -> (r: Scheduler)
        ensures
            r@ == (SchedulerV { quantum, pending: Seq::empty(), completed: Seq::empty(), workers: workers@ }),
    {
        Scheduler { quantum, pending: VecDeque::new(), completed: Vec::new(), workers }
    }

    /// Puts a job at the end of the queue.
    pub fn submit_job(&mut self, job: Job)
        ensures
            final(self)@ == (SchedulerV { pending: old(self)@.pending.push(job), ..old(self)@ }),
    {
        self.pending.push_back(job);
    }

    /// Takes every worker with id `node_id` down; the job it was running goes
    /// back to the end of the queue and it holds no CPU any more.
    pub fn fail_node(&mut self, node_id: usize)
        ensures
            ({
                let (p, ws) = fail_upto(old(self)@.pending, old(self)@.workers, node_id, old(self)@.workers.len() as int);
                final(self)@ == (SchedulerV { pending: p, workers: ws, ..old(self)@ })
            }),
    {
        let ghost p0 = self.pending@;
        let ghost w0 = self.workers@;
        let mut i: usize = 0;
        while i < self.workers.len()
            invariant
                0 <= i <= w0.len(),
                self.workers@.len() == w0.len(),
                self.quantum == old(self)@.quantum,
                self.completed@ == old(self)@.completed,
                p0 == old(self)@.pending,
                w0 == old(self)@.workers,
                (self.pending@, self.workers@) == fail_upto(p0, w0, node_id, i as int),
            decreases w0.len() - i,
        {
            proof { lemma_fail_upto_keeps_rest(p0, w0, node_id, i as int); }
            let mut w = self.workers[i];
            if w.id == node_id {
                w.active = false;
                match w.current_job {
                    Some(job) => {
                        self.pending.push_back(job);
                    },
                    None => {},
                }
                w.current_job = None;
                w.used_cpu = 0;
                self.workers.set(i, w);
            }
            i = i + 1;
        }
    }

    /// One tick: each worker in turn, if it is up, takes the first pending job
    /// it accepts when idle, then runs its job for one quantum; a finished job
    /// goes to `completed`, an unfinished one to the end of the queue.
    pub fn schedule_tick(&mut self)
        requires
            tick_ready(old(self)@.workers),
        ensures
            final(self)@ == tick_spec(old(self)@),
    {
        let ghost s0 = self@;
        let q = self.quantum;
        let mut i: usize = 0;
        while i < self.workers.len()
            invariant
                0 <= i <= s0.workers.len(),
                q == s0.quantum,
                self.quantum == q,
                tick_ready(s0.workers),
                self.workers@.len() == s0.workers.len(),
                (self.pending@, self.completed@, self.workers@) == tick_upto(q, s0.pending, s0.completed, s0.workers, i as int),
            decreases s0.workers.len() - i,
        {
            proof { lemma_tick_upto_keeps_rest(q, s0.pending, s0.completed, s0.workers, i as int); }
            let mut w = self.workers[i];
            assert(w == s0.workers[i as int]);
            if w.active {
                let ghost p_before = self.pending@;
                // The idle worker takes the first job it accepts.
                if w.current_job.is_none() {
                    match first_accepted(&w, &self.pending) {
                        Some(idx) => {
                            proof {
                                let c = choose|x: int| first_fit(p_before, w, x);
                                lemma_first_fit_unique(p_before, w, c, idx as int);
                            }
                            let job = self.pending.remove(idx).unwrap();
                            w.used_cpu = w.used_cpu + job.required_cpu;
                            w.current_job = Some(job);
                        },
                        None => {},
                    }
                }
                assert((self.pending@, w) == assign(p_before, s0.workers[i as int]));
                // It runs its job for one quantum.
                match w.current_job {
                    Some(job) => {
                        let run_time = if q < job.remaining_time { q } else { job.remaining_time };
                        let ran = Job { remaining_time: job.remaining_time - run_time, ..job };
                        w.used_cpu = w.used_cpu - job.required_cpu;
                        w.current_job = None;
                        if ran.remaining_time == 0 {
                            self.completed.push(ran);
                        } else {
                            self.pending.push_back(ran);
                        }
                    },
                    None => {},
                }
                self.workers.set(i, w);
            }
            i = i + 1;
        }
    }
}

/// The status line of a worker.
pub open spec fn worker_line(w: WorkerNode) -> Seq<char> {
    "Node "@ + nat_digits(w.id as nat) + " Active="@ + (if w.active { "true"@ } else { "false"@ }) + " CPU="@
        + nat_digits(w.used_cpu as nat) + "/"@ + nat_digits(w.cpu_capacity as nat)
}

/// The lines of the status report: the queue and finished counts, then one
/// line per worker, framed.
pub open spec fn status_lines_spec(s: SchedulerV) -> Seq<Seq<char>> {
    seq!["\n=== STATUS ==="@, "Pending: "@ + nat_digits(s.pending.len()), "Completed: "@ + nat_digits(s.completed.len())]
        + s.workers.map_values(|w: WorkerNode| worker_line(w)) + seq!["==============\n"@]
}

impl Scheduler {
    /// The lines of the status report.
    pub fn status_lines(&self) -> (r: Vec<String>)
        ensures
            r@.map_values(|l: String| l@) == status_lines_spec(self@),
    {
        let mut out: Vec<String> = Vec::new();
        out.push("\n=== STATUS ===".to_owned());
        let p = usize_to_string(self.pending.len());
        out.push(cat2("Pending: ", p.as_str()));
        let c = usize_to_string(self.completed.len());
        out.push(cat2("Completed: ", c.as_str()));
        let ghost head = out@.map_values(|l: String| l@);
        let mut i: usize = 0;
        while i < self.workers.len()
            invariant
                i <= self.workers@.len(),
                head.len() == 3,
                out@.map_values(|l: String| l@) =~= head + self.workers@.take(i as int).map_values(|w: WorkerNode| worker_line(w)),
            decreases self.workers@.len() - i,
        {
            let w = self.workers[i];
            let mut line = cat2("Node ", usize_to_string(w.id).as_str());
            line.append(" Active=");
            line.append(if w.active { "true" } else { "false" });
            line.append(" CPU=");
            line.append(u64_to_string(w.used_cpu as u64).as_str());
            line.append("/");
            line.append(u64_to_string(w.cpu_capacity as u64).as_str());
            let ghost p = out@;
            out.push(line);
            assert(out@.map_values(|l: String| l@) =~= p.map_values(|l: String| l@).push(worker_line(w)));
            assert(self.workers@.take(i + 1) =~= self.workers@.take(i as int).push(w));
            i = i + 1;
        }
        assert(self.workers@.take(i as int) =~= self.workers@);
        let ghost p = out@;
        out.push("==============\n".to_owned());
        assert(out@.map_values(|l: String| l@) =~= p.map_values(|l: String| l@).push("==============\n"@));
        out
    }
}

/// The ids of a sequence of jobs, as a multiset.
pub open spec fn job_ids(s: Seq<Job>) -> Multiset<u32> {
    s.map_values(|j: Job| j.id).to_multiset()
}

/// The id of the job a worker runs, if any.
pub open spec fn running_id(w: WorkerNode) -> Multiset<u32> {
    match w.current_job {
        Some(j) => Multiset::singleton(j.id),
        None => Multiset::empty(),
    }
}

/// The ids of the jobs the workers run.
pub open spec fn running_ids(ws: Seq<WorkerNode>) -> Multiset<u32>
    decreases ws.len(),
{
    if ws.len() == 0 {
        Multiset::empty()
    } else {
        running_ids(ws.drop_last()).add(running_id(ws.last()))
    }
}

/// Every job the scheduler holds: queued, finished, or running.
pub open spec fn all_job_ids(s: SchedulerV) -> Multiset<u32> {
    job_ids(s.pending).add(job_ids(s.completed)).add(running_ids(s.workers))
}

proof fn lemma_job_ids_push(s: Seq<Job>, j: Job)
    ensures
        job_ids(s.push(j)) =~= job_ids(s).insert(j.id),
{
    broadcast use vstd::seq_lib::group_to_multiset_ensures;
    assert(s.push(j).map_values(|j: Job| j.id) =~= s.map_values(|j: Job| j.id).push(j.id));
}

proof fn lemma_job_ids_remove(s: Seq<Job>, i: int)
    requires
        0 <= i < s.len(),
    ensures
        job_ids(s.remove(i)) =~= job_ids(s).remove(s[i].id),
{
    broadcast use vstd::seq_lib::group_to_multiset_ensures;
    assert(s.remove(i).map_values(|j: Job| j.id) =~= s.map_values(|j: Job| j.id).remove(i));
}

proof fn lemma_running_ids_update(ws: Seq<WorkerNode>, k: int, w: WorkerNode)
    requires
        0 <= k < ws.len(),
    ensures
        running_ids(ws.update(k, w)).add(running_id(ws[k])) =~= running_ids(ws).add(running_id(w)),
    decreases ws.len(),
{
    broadcast use vstd::multiset::group_multiset_axioms;
    let u = ws.update(k, w);
    let d = ws.drop_last();
    if k == ws.len() - 1 {
        assert(u.drop_last() =~= d);
    } else {
        assert(u.drop_last() =~= d.update(k, w));
        lemma_running_ids_update(d, k, w);
        assert(d[k] == ws[k]);
        assert(u.last() == ws.last());
    }
    assert forall|v: u32| #[trigger] running_ids(u).add(running_id(ws[k])).count(v) == running_ids(ws).add(running_id(w)).count(v) by {
        if k != ws.len() - 1 {
            assert(running_ids(d.update(k, w)).add(running_id(d[k])).count(v) == running_ids(d).add(running_id(w)).count(v));
        }
    }
}

proof fn lemma_step_conserves(quantum: u32, p: Seq<Job>, c: Seq<Job>, w: WorkerNode)
    ensures
        ({
            let (p2, c2, w2) = step_worker(quantum, p, c, w);
            job_ids(p2).add(job_ids(c2)).add(running_id(w2)) =~= job_ids(p).add(job_ids(c)).add(running_id(w))
        }),
{
    broadcast use vstd::multiset::group_multiset_axioms;
    if w.active {
        let (p1, w1) = assign(p, w);
        if w.current_job is None && exists|idx: int| first_fit(p, w, idx) {
            let idx = choose|idx: int| first_fit(p, w, idx);
            lemma_job_ids_remove(p, idx);
            assert(job_ids(p).count(p[idx].id) > 0) by {
                broadcast use vstd::seq_lib::group_to_multiset_ensures;
                assert(p.map_values(|j: Job| j.id)[idx] == p[idx].id);
            }
        }
        match w1.current_job {
            Some(job) => {
                let left = (job.remaining_time - min_u32(quantum, job.remaining_time)) as u32;
                let ran = Job { remaining_time: left, ..job };
                lemma_job_ids_push(p1, ran);
                lemma_job_ids_push(c, ran);
            },
            None => {},
        }
    }
}

proof fn lemma_tick_upto_conserves(quantum: u32, pending: Seq<Job>, completed: Seq<Job>, workers: Seq<WorkerNode>, n: int)
    requires
        0 <= n <= workers.len(),
    ensures
        ({
            let (p, c, ws) = tick_upto(quantum, pending, completed, workers, n);
            job_ids(p).add(job_ids(c)).add(running_ids(ws)) =~= job_ids(pending).add(job_ids(completed)).add(running_ids(workers))
        }),
    decreases n,
{
    broadcast use vstd::multiset::group_multiset_axioms;
    if n > 0 {
        lemma_tick_upto_conserves(quantum, pending, completed, workers, n - 1);
        lemma_tick_upto_keeps_rest(quantum, pending, completed, workers, n - 1);
        let (p, c, ws) = tick_upto(quantum, pending, completed, workers, n - 1);
        let (p2, c2, w2) = step_worker(quantum, p, c, ws[n - 1]);
        lemma_step_conserves(quantum, p, c, ws[n - 1]);
        lemma_running_ids_update(ws, n - 1, w2);
        let u = ws.update(n - 1, w2);
        assert forall|v: u32| #[trigger] job_ids(p2).add(job_ids(c2)).add(running_ids(u)).count(v)
            == job_ids(pending).add(job_ids(completed)).add(running_ids(workers)).count(v) by {
            assert(job_ids(p).add(job_ids(c)).add(running_ids(ws)).count(v)
                == job_ids(pending).add(job_ids(completed)).add(running_ids(workers)).count(v));
            assert(job_ids(p2).add(job_ids(c2)).add(running_id(w2)).count(v)
                == job_ids(p).add(job_ids(c)).add(running_id(ws[n - 1])).count(v));
            assert(running_ids(u).add(running_id(ws[n - 1])).count(v) == running_ids(ws).add(running_id(w2)).count(v));
        }
    }
}

/// A tick loses no job and makes none: every job is still queued, finished or
/// running, exactly as many times as before.
pub proof fn law_tick_conserves_jobs(s: SchedulerV)
    requires
        tick_ready(s.workers),
    ensures
        all_job_ids(tick_spec(s)) =~= all_job_ids(s),
{
    broadcast use vstd::multiset::group_multiset_axioms;
    lemma_tick_upto_conserves(s.quantum, s.pending, s.completed, s.workers, s.workers.len() as int);
}

proof fn lemma_fail_upto_conserves(pending: Seq<Job>, workers: Seq<WorkerNode>, node_id: usize, n: int)
    requires
        0 <= n <= workers.len(),
    ensures
        ({
            let (p, ws) = fail_upto(pending, workers, node_id, n);
            job_ids(p).add(running_ids(ws)) =~= job_ids(pending).add(running_ids(workers))
        }),
    decreases n,
{
    broadcast use vstd::multiset::group_multiset_axioms;
    if n > 0 {
        lemma_fail_upto_conserves(pending, workers, node_id, n - 1);
        lemma_fail_upto_keeps_rest(pending, workers, node_id, n - 1);
        let (p, ws) = fail_upto(pending, workers, node_id, n - 1);
        let w = ws[n - 1];
        if w.id == node_id {
            let down = WorkerNode { active: false, current_job: None, used_cpu: 0, ..w };
            lemma_running_ids_update(ws, n - 1, down);
            match w.current_job {
                Some(j) => lemma_job_ids_push(p, j),
                None => {},
            }
            let p2 = match w.current_job {
                Some(j) => p.push(j),
                None => p,
            };
            let u = ws.update(n - 1, down);
            assert forall|v: u32| #[trigger] job_ids(p2).add(running_ids(u)).count(v)
                == job_ids(pending).add(running_ids(workers)).count(v) by {
                assert(job_ids(p).add(running_ids(ws)).count(v) == job_ids(pending).add(running_ids(workers)).count(v));
                assert(running_ids(u).add(running_id(w)).count(v) == running_ids(ws).add(running_id(down)).count(v));
            }
        }
    }
}

/// A node failure loses no job: the one it was running goes back to the queue.
pub proof fn law_fail_conserves_jobs(s: SchedulerV, node_id: usize)
    ensures
        ({
            let (p, ws) = fail_upto(s.pending, s.workers, node_id, s.workers.len() as int);
            all_job_ids(SchedulerV { pending: p, workers: ws, ..s }) =~= all_job_ids(s)
        }),
{
    broadcast use vstd::multiset::group_multiset_axioms;
    lemma_fail_upto_conserves(s.pending, s.workers, node_id, s.workers.len() as int);
    let (p, ws) = fail_upto(s.pending, s.workers, node_id, s.workers.len() as int);
    assert forall|v: u32| #[trigger] all_job_ids(SchedulerV { pending: p, workers: ws, ..s }).count(v) == all_job_ids(s).count(v) by {
        assert(job_ids(p).add(running_ids(ws)).count(v) == job_ids(s.pending).add(running_ids(s.workers)).count(v));
    }
}

proof fn lemma_tick_upto_idles(quantum: u32, pending: Seq<Job>, completed: Seq<Job>, workers: Seq<WorkerNode>, n: int)
    requires
        0 <= n <= workers.len(),
    ensures
        forall|i: int| 0 <= i < n && workers[i].active ==> {
            let w = #[trigger] tick_upto(quantum, pending, completed, workers, n).2[i];
            w.current_job is None && w.active && w.id == workers[i].id
        },
    decreases n,
{
    if n > 0 {
        lemma_tick_upto_idles(quantum, pending, completed, workers, n - 1);
        lemma_tick_upto_keeps_rest(quantum, pending, completed, workers, n - 1);
    }
}

/// After a tick every worker that is up is idle again: it ran its job for one
/// quantum, and the job was finished or queued again.
pub proof fn law_tick_idles_workers(s: SchedulerV)
    ensures
        forall|i: int| 0 <= i < s.workers.len() && s.workers[i].active ==> {
            let w = #[trigger] tick_spec(s).workers[i];
            w.current_job is None && w.active && w.id == s.workers[i].id
        },
{
    lemma_tick_upto_idles(s.quantum, s.pending, s.completed, s.workers, s.workers.len() as int);
}

proof fn lemma_tick_upto_order(quantum: u32, pending: Seq<Job>, completed: Seq<Job>, workers: Seq<WorkerNode>, n: int)
    requires
        0 <= n <= workers.len(),
    ensures
        ({
            let c = tick_upto(quantum, pending, completed, workers, n).1;
            &&& c.len() >= completed.len()
            &&& c.take(completed.len() as int) == completed
            &&& forall|k: int| completed.len() <= k < c.len() ==> (#[trigger] c[k]).remaining_time == 0
        }),
        forall|i: int| 0 <= i < workers.len() && !workers[i].active
            ==> #[trigger] tick_upto(quantum, pending, completed, workers, n).2[i] == workers[i],
    decreases n,
{
    lemma_tick_upto_keeps_rest(quantum, pending, completed, workers, n);
    if n > 0 {
        lemma_tick_upto_order(quantum, pending, completed, workers, n - 1);
        lemma_tick_upto_keeps_rest(quantum, pending, completed, workers, n - 1);
        let (p, c, ws) = tick_upto(quantum, pending, completed, workers, n - 1);
        let (p2, c2, w2) = step_worker(quantum, p, c, ws[n - 1]);
        if c2 != c {
            assert(c2.take(completed.len() as int) =~= c.take(completed.len() as int));
        }
    }
}

/// A tick keeps the order of what finished before it: the jobs finished
/// earlier stay first, in their order, and every job it adds to them has no
/// time left; the workers that are down are left as they were.
pub proof fn law_tick_keeps_finished(s: SchedulerV)
    ensures
        tick_spec(s).workers.len() == s.workers.len(),
        tick_spec(s).completed.len() >= s.completed.len(),
        tick_spec(s).completed.take(s.completed.len() as int) == s.completed,
        forall|k: int| s.completed.len() <= k < tick_spec(s).completed.len()
            ==> (#[trigger] tick_spec(s).completed[k]).remaining_time == 0,
        forall|i: int| 0 <= i < s.workers.len() && !s.workers[i].active ==> #[trigger] tick_spec(s).workers[i] == s.workers[i],
{
    lemma_tick_upto_order(s.quantum, s.pending, s.completed, s.workers, s.workers.len() as int);
    lemma_tick_upto_keeps_rest(s.quantum, s.pending, s.completed, s.workers, s.workers.len() as int);
}

/// One worker's part of a tick: a worker that is up and idle takes the first
/// pending job it accepts; the job it then runs loses `min(quantum, time
/// left)` of its time, and goes to the finished jobs exactly when no time is
/// left, else to the end of the queue; the worker ends idle, holding the CPU it
/// held before minus that of a job it was already running. A worker with no
/// job to run, or that is down, changes nothing.
pub proof fn law_step_runs_one_quantum(quantum: u32, p: Seq<Job>, c: Seq<Job>, w: WorkerNode)
    requires
        w.current_job matches Some(j) ==> w.used_cpu >= j.required_cpu,
    ensures
        ({
            let (p2, c2, w2) = step_worker(quantum, p, c, w);
            let (p1, w1) = assign(p, w);
            &&& !w.active ==> p2 == p && c2 == c && w2 == w
            &&& w.active ==> match w1.current_job {
                None => p2 == p && c2 == c && w2 == w && !(exists|x: int| first_fit(p, w, x)),
                Some(j) => {
                    let left = j.remaining_time - min_u32(quantum, j.remaining_time);
                    &&& (w.current_job is None ==> first_fit(p, w, choose|x: int| first_fit(p, w, x))
                        && j == p[choose|x: int| first_fit(p, w, x)] && p1 == p.remove(choose|x: int| first_fit(p, w, x)))
                    &&& (w.current_job is Some ==> p1 == p && w.current_job == Some(j))
                    &&& (left == 0 ==> c2 == c.push(Job { remaining_time: 0, ..j }) && p2 == p1)
                    &&& (left > 0 ==> p2 == p1.push(Job { remaining_time: left as u32, ..j }) && c2 == c)
                    &&& w2.current_job is None && w2.active && w2.id == w.id
                    &&& w2.used_cpu == (if w.current_job is None { w.used_cpu as int } else { w.used_cpu - j.required_cpu })
                },
            }
        }),
{
    if w.active && w.current_job is None && exists|x: int| first_fit(p, w, x) {
        let x = choose|x: int| first_fit(p, w, x);
        assert(first_fit(p, w, x));
    }
}

/// Whether every worker is idle and holds no CPU.
pub open spec fn all_idle(ws: Seq<WorkerNode>) -> bool {
    forall|i: int| 0 <= i < ws.len() ==> (#[trigger] ws[i]).current_job is None && ws[i].used_cpu == 0
}

proof fn lemma_running_ids_idle(ws: Seq<WorkerNode>)
    requires
        all_idle(ws),
    ensures
        running_ids(ws) =~= Multiset::<u32>::empty(),
    decreases ws.len(),
{
    broadcast use vstd::multiset::group_multiset_axioms;
    if ws.len() > 0 {
        assert(all_idle(ws.drop_last())) by {
            assert forall|i: int| 0 <= i < ws.drop_last().len() implies (#[trigger] ws.drop_last()[i]).current_job is None
                && ws.drop_last()[i].used_cpu == 0 by {
                assert(ws.drop_last()[i] == ws[i]);
            }
        }
        lemma_running_ids_idle(ws.drop_last());
        assert(ws.last() == ws[ws.len() - 1]);
    }
}

proof fn lemma_tick_upto_idle(quantum: u32, pending: Seq<Job>, completed: Seq<Job>, workers: Seq<WorkerNode>, n: int)
    requires
        0 <= n <= workers.len(),
        all_idle(workers),
    ensures
        all_idle(tick_upto(quantum, pending, completed, workers, n).2),
    decreases n,
{
    if n > 0 {
        lemma_tick_upto_idle(quantum, pending, completed, workers, n - 1);
        lemma_tick_upto_keeps_rest(quantum, pending, completed, workers, n - 1);
        let (p, c, ws) = tick_upto(quantum, pending, completed, workers, n - 1);
        assert(ws[n - 1] == workers[n - 1]);
        law_step_runs_one_quantum(quantum, p, c, ws[n - 1]);
        let (p2, c2, w2) = step_worker(quantum, p, c, ws[n - 1]);
        let u = ws.update(n - 1, w2);
        assert forall|i: int| 0 <= i < u.len() implies (#[trigger] u[i]).current_job is None && u[i].used_cpu == 0 by {
            if i != n - 1 {
                assert(u[i] == ws[i]);
            }
        }
    }
}

/// A whole tick over workers that are all idle and hold no CPU: they are all
/// so again after it; the queued and finished jobs are the same jobs as before,
/// none lost or made; and each worker that is up, in turn, takes the first
/// queued job it accepts, if any, and runs it for one quantum: the job loses
/// `min(quantum, time left)` and is finished exactly when no time is left,
/// else it goes to the end of the queue.
pub proof fn law_tick_whole(s: SchedulerV)
    requires
        all_idle(s.workers),
    ensures
        all_idle(tick_spec(s).workers),
        job_ids(tick_spec(s).pending).add(job_ids(tick_spec(s).completed)) =~= job_ids(s.pending).add(job_ids(s.completed)),
        forall|i: int| #![trigger tick_upto(s.quantum, s.pending, s.completed, s.workers, i)]
            0 <= i < s.workers.len() && s.workers[i].active ==> {
            let before = tick_upto(s.quantum, s.pending, s.completed, s.workers, i);
            let after = tick_upto(s.quantum, s.pending, s.completed, s.workers, i + 1);
            let (p, c) = (before.0, before.1);
            if exists|x: int| first_fit(p, s.workers[i], x) {
                let x = choose|x: int| first_fit(p, s.workers[i], x);
                let j = p[x];
                let left = j.remaining_time - min_u32(s.quantum, j.remaining_time);
                &&& left == 0 ==> after.1 == c.push(Job { remaining_time: 0, ..j }) && after.0 == p.remove(x)
                &&& left > 0 ==> after.0 == p.remove(x).push(Job { remaining_time: left as u32, ..j }) && after.1 == c
            } else {
                after.0 == p && after.1 == c
            }
        },
{
    broadcast use vstd::multiset::group_multiset_axioms;
    let n = s.workers.len() as int;
    lemma_tick_upto_idle(s.quantum, s.pending, s.completed, s.workers, n);
    law_tick_conserves_jobs(s);
    lemma_running_ids_idle(s.workers);
    lemma_running_ids_idle(tick_spec(s).workers);
    let t = tick_spec(s);
    assert forall|v: u32| #[trigger] job_ids(t.pending).add(job_ids(t.completed)).count(v)
        == job_ids(s.pending).add(job_ids(s.completed)).count(v) by {
        assert(all_job_ids(t).count(v) == all_job_ids(s).count(v));
        assert(running_ids(t.workers).count(v) == 0);
        assert(running_ids(s.workers).count(v) == 0);
    }
    assert forall|i: int| #![trigger tick_upto(s.quantum, s.pending, s.completed, s.workers, i)]
        0 <= i < s.workers.len() && s.workers[i].active implies {
        let before = tick_upto(s.quantum, s.pending, s.completed, s.workers, i);
        let after = tick_upto(s.quantum, s.pending, s.completed, s.workers, i + 1);
        let (p, c) = (before.0, before.1);
        if exists|x: int| first_fit(p, s.workers[i], x) {
            let x = choose|x: int| first_fit(p, s.workers[i], x);
            let j = p[x];
            let left = j.remaining_time - min_u32(s.quantum, j.remaining_time);
            &&& left == 0 ==> after.1 == c.push(Job { remaining_time: 0, ..j }) && after.0 == p.remove(x)
            &&& left > 0 ==> after.0 == p.remove(x).push(Job { remaining_time: left as u32, ..j }) && after.1 == c
        } else {
            after.0 == p && after.1 == c
        }
    } by {
        lemma_tick_upto_keeps_rest(s.quantum, s.pending, s.completed, s.workers, i);
        let (p, c, ws) = tick_upto(s.quantum, s.pending, s.completed, s.workers, i);
        assert(ws[i] == s.workers[i]);
        law_step_runs_one_quantum(s.quantum, p, c, ws[i]);
    }
}

} // verus!

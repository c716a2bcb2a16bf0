//! A round-robin query dispatcher: each query goes to the next node, in turn,
//! that is up and below its capacity.

use vstd::prelude::*;
use crate::text::{cat3, nat_digits, u64_to_string, usize_to_string};

verus! {

/// A query waiting to be dispatched.
#[derive(Clone, Debug)]
pub struct QueryJob {
    pub id: u64,
    pub query: String,
}

/// A node: whether it is up, how many queries it can hold, and how many it holds.
#[derive(Clone, Copy, Debug)]
pub struct Node {
    pub id: u64,
    pub active: bool,
    pub capacity: usize,
    pub current_load: usize,
}

/// Whether a node can take one more query.
pub open spec fn available(n: Node) -> bool {
    n.active && n.current_load < n.capacity
}

/// The position `k` steps after `start` in a ring of `len` positions.
pub open spec fn ring(start: int, k: int, len: int) -> int {
    if start + k < len { start + k } else { start + k - len }
}

/// The dispatcher: the nodes, and the position where the next search starts.
pub struct Scheduler {
    pub nodes: Vec<Node>,
    pub next_node: usize,
}

pub struct SchedulerV {
    pub nodes: Seq<Node>,
    pub next_node: usize,
}

impl View for Scheduler {
    type V = SchedulerV;

    open spec fn view(&self) -> SchedulerV {
        SchedulerV { nodes: self.nodes@, next_node: self.next_node }
    }
}

/// The start position is on the ring.
pub open spec fn rr_wf(s: SchedulerV) -> bool {
    s.nodes.len() == 0 || s.next_node < s.nodes.len()
}

/// `k` is the number of steps from the start to the first node that can take a query.
pub open spec fn first_available(s: SchedulerV, k: int) -> bool {
    let len = s.nodes.len() as int;
    &&& 0 <= k < len
    &&& available(s.nodes[ring(s.next_node as int, k, len)])
    &&& forall|j: int| 0 <= j < k ==> !available(#[trigger] s.nodes[ring(s.next_node as int, j, len)])
}

/// Dispatching one query: the first node from the start position on that can
/// take it gets one more query and the search starts after it next time; when
/// no node can, nothing changes.
pub open spec fn schedule_spec(s: SchedulerV) -> (SchedulerV, Option<u64>) {
    let len = s.nodes.len() as int;
    if exists|k: int| first_available(s, k) {
        let k = choose|k: int| first_available(s, k);
        let i = ring(s.next_node as int, k, len);
        let n = s.nodes[i];
        (
            SchedulerV {
                nodes: s.nodes.update(i, Node { current_load: (n.current_load + 1) as usize, ..n }),
                next_node: ring(i, 1, len) as usize,
            },
            Some(n.id),
        )
    } else {
        (s, None)
    }
}

/// `i` is the first node with id `id`.
pub open spec fn first_with_id(nodes: Seq<Node>, id: u64, i: int) -> bool {
    &&& 0 <= i < nodes.len()
    &&& nodes[i].id == id
    &&& forall|j: int| 0 <= j < i ==> #[trigger] nodes[j].id != id
}

/// The nodes after the first node with id `id`, if any, is changed by `f`.
pub open spec fn with_first(nodes: Seq<Node>, id: u64, f: spec_fn(Node) -> Node) -> Seq<Node> {
    if exists|i: int| first_with_id(nodes, id, i) {
        let i = choose|i: int| first_with_id(nodes, id, i);
        nodes.update(i, f(nodes[i]))
    } else {
        nodes
    }
}

/// No node holds more queries than it can.
pub open spec fn within_capacity(nodes: Seq<Node>) -> bool {
    forall|i: int| 0 <= i < nodes.len() ==> #[trigger] nodes[i].current_load <= nodes[i].capacity
}

/// The status line of a node.
pub open spec fn node_text(n: Node) -> Seq<char> {
    "Node "@ + nat_digits(n.id as nat) + " | active="@ + (if n.active { "true"@ } else { "false"@ })
        + " | load="@ + nat_digits(n.current_load as nat) + "/"@ + nat_digits(n.capacity as nat)
}

proof fn lemma_first_with_id_unique(nodes: Seq<Node>, id: u64, a: int, b: int)
    requires
        first_with_id(nodes, id, a),
        first_with_id(nodes, id, b),
    ensures
        a == b,
{
    if a < b {
        assert(nodes[a].id != id);
    }
    if b < a {
        assert(nodes[b].id != id);
    }
}

proof fn lemma_first_available_unique(s: SchedulerV, a: int, b: int)
    requires
        first_available(s, a),
        first_available(s, b),
    ensures
        a == b,
{
    let len = s.nodes.len() as int;
    if a < b {
        assert(!available(s.nodes[ring(s.next_node as int, a, len)]));
    }
    if b < a {
        assert(!available(s.nodes[ring(s.next_node as int, b, len)]));
    }
}

/// The index of the first node with id `id`.
fn position_of(nodes: &Vec<Node>, id: u64) -> (r: Option<usize>)
    ensures
        match r {
            Some(i) => first_with_id(nodes@, id, i as int),
            None => forall|i: int| !first_with_id(nodes@, id, i),
        },
{
    let mut i: usize = 0;
    while i < nodes.len()
        invariant
            i <= nodes@.len(),
            forall|j: int| 0 <= j < i ==> #[trigger] nodes@[j].id != id,
        decreases nodes@.len() - i,
    {
        if nodes[i].id == id {
            return Some(i);
        }
        i = i + 1;
    }
    None
}

proof fn lemma_exists_first_available(s: SchedulerV, k: int)
    requires
        rr_wf(s),
        0 <= k < s.nodes.len(),
        available(s.nodes[ring(s.next_node as int, k, s.nodes.len() as int)]),
    ensures
        exists|x: int| first_available(s, x),
    decreases k,
{
    let len = s.nodes.len() as int;
    if forall|j: int| 0 <= j < k ==> !available(#[trigger] s.nodes[ring(s.next_node as int, j, len)]) {
        assert(first_available(s, k));
    } else {
        let j = choose|j: int| 0 <= j < k && available(#[trigger] s.nodes[ring(s.next_node as int, j, len)]);
        lemma_exists_first_available(s, j);
    }
}

/// A query is refused only when no node is up and below its capacity; when it
/// is dispatched, it goes to such a node.
pub proof fn law_dispatch_refused_iff_full(s: SchedulerV)
    requires
        rr_wf(s),
    ensures
        schedule_spec(s).1 is None <==> forall|i: int| 0 <= i < s.nodes.len() ==> !available(#[trigger] s.nodes[i]),
        schedule_spec(s).1 matches Some(id) ==> exists|i: int| 0 <= i < s.nodes.len() && available(#[trigger] s.nodes[i]) && s.nodes[i].id == id,
{
    let len = s.nodes.len() as int;
    if exists|i: int| 0 <= i < len && available(#[trigger] s.nodes[i]) {
        let i = choose|i: int| 0 <= i < len && available(#[trigger] s.nodes[i]);
        let k = if i >= s.next_node { i - s.next_node } else { i + len - s.next_node };
        assert(ring(s.next_node as int, k, len) == i);
        lemma_exists_first_available(s, k);
    }
    if schedule_spec(s).1 is Some {
        let k = choose|k: int| first_available(s, k);
        let i = ring(s.next_node as int, k, len);
        assert(available(s.nodes[i]));
    }
}

/// Dispatching keeps every node within its capacity and the start position on the ring.
pub proof fn law_dispatch_within_capacity(s: SchedulerV)
    requires
        rr_wf(s),
        within_capacity(s.nodes),
    ensures
        within_capacity(schedule_spec(s).0.nodes),
        rr_wf(schedule_spec(s).0),
        schedule_spec(s).0.nodes.len() == s.nodes.len(),
{
}

/// Completing, failing or recovering a node keeps every node within its capacity.
pub proof fn law_updates_within_capacity(nodes: Seq<Node>, id: u64)
    requires
        within_capacity(nodes),
    ensures
        within_capacity(with_first(nodes, id, |n: Node| if n.current_load > 0 { Node { current_load: (n.current_load - 1) as usize, ..n } } else { n })),
        within_capacity(with_first(nodes, id, |n: Node| Node { active: false, ..n })),
        within_capacity(with_first(nodes, id, |n: Node| Node { active: true, ..n })),
{
}

proof fn lemma_ring_mod(start: int, k: int, len: int)
    requires
        0 <= start < len,
        0 <= k < len,
    ensures
        ring(start, k, len) == (start + k) % len,
        ring(start, 1, len) == (start + 1) % len,
{
    if start + k < len {
        vstd::arithmetic::div_mod::lemma_small_mod((start + k) as nat, len as nat);
    } else {
        vstd::arithmetic::div_mod::lemma_small_mod((start + k - len) as nat, len as nat);
        vstd::arithmetic::div_mod::lemma_mod_sub_multiples_vanish(start + k, len);
    }
    if start + 1 < len {
        vstd::arithmetic::div_mod::lemma_small_mod((start + 1) as nat, len as nat);
    } else {
        assert(start + 1 == len);
        vstd::arithmetic::div_mod::lemma_mod_self_0(len);
    }
}

/// A dispatch goes to a node that can take the query: the first one that can,
/// going round from the start position; that node gets one more query, no
/// other node changes, its id is returned, and the next search starts at the
/// node after it.
pub proof fn law_dispatch_resumes_after_chosen(s: SchedulerV)
    requires
        rr_wf(s),
        s.nodes.len() <= usize::MAX,
        schedule_spec(s).1 is Some,
    ensures
        exists|i: int| 0 <= i < s.nodes.len() && #[trigger] available(s.nodes[i]) && {
            let len = s.nodes.len() as int;
            let after = schedule_spec(s).0;
            &&& schedule_spec(s).1 == Some(s.nodes[i].id)
            &&& after.nodes == s.nodes.update(i, Node { current_load: (s.nodes[i].current_load + 1) as usize, ..s.nodes[i] })
            &&& after.next_node == (i + 1) % len
            &&& forall|j: int| 0 <= j < (i - s.next_node + len) % len ==> !available(#[trigger] s.nodes[(s.next_node + j) % len])
        },
{
    let len = s.nodes.len() as int;
    let k = choose|k: int| first_available(s, k);
    let i = ring(s.next_node as int, k, len);
    lemma_ring_mod(s.next_node as int, k, len);
    lemma_ring_mod(i, 0, len);
    let d = (i - s.next_node + len) % len;
    assert(d == k) by {
        if i >= s.next_node {
            assert(i - s.next_node == k);
            vstd::arithmetic::div_mod::lemma_mod_add_multiples_vanish(k, len);
            vstd::arithmetic::div_mod::lemma_small_mod(k as nat, len as nat);
        } else {
            assert(i - s.next_node + len == k);
            vstd::arithmetic::div_mod::lemma_small_mod(k as nat, len as nat);
        }
    }
    assert forall|j: int| 0 <= j < d implies !available(#[trigger] s.nodes[(s.next_node + j) % len]) by {
        lemma_ring_mod(s.next_node as int, j, len);
        assert(!available(s.nodes[ring(s.next_node as int, j, len)]));
    }
    assert(available(s.nodes[i]));
    assert(0 <= i < len);
    let after = schedule_spec(s).0;
    assert(schedule_spec(s).1 == Some(s.nodes[i].id));
    assert(after.nodes == s.nodes.update(i, Node { current_load: (s.nodes[i].current_load + 1) as usize, ..s.nodes[i] }));
    assert(0 <= ring(i, 1, len) < len);
    assert(ring(i, 1, len) == (i + 1) % len);
    assert(after.next_node == (i + 1) % len);
}

impl Node {
    /// The status line of the node: `Node <id> | active=<b> | load=<l>/<c>`.
    pub fn to_string(&self) -> (r: String)
        ensures
            r@ == node_text(*self),
    {
        let id = u64_to_string(self.id);
        let load = usize_to_string(self.current_load);
        let cap = usize_to_string(self.capacity);
        let mut s = cat3("Node ", id.as_str(), " | active=");
        s.append(if self.active { "true" } else { "false" });
        s.append(" | load=");
        s.append(load.as_str());
        s.append("/");
        s.append(cap.as_str());
        s
    }
}

impl Scheduler {
    /// A dispatcher over `nodes` that starts its search at the first node.
    pub fn new(nodes: Vec<Node>) -> (r: Scheduler)
        ensures
            r@ == (SchedulerV { nodes: nodes@, next_node: 0 }),
            rr_wf(r@),
    {
        Scheduler { nodes, next_node: 0 }
    }

    /// Dispatches a query to the first node, in turn from the start position,
    /// that is up and below its capacity, and returns that node's id.
    pub fn schedule_query(&mut self, job: QueryJob) -> (r: Option<u64>)
        requires
            rr_wf(old(self)@),
        ensures
            (final(self)@, r) == schedule_spec(old(self)@),
            rr_wf(final(self)@),
    {
        let ghost s0 = self@;
        let total = self.nodes.len();
        let mut k: usize = 0;
        while k < total
            invariant
                total == s0.nodes.len(),
                s0 == old(self)@,
                rr_wf(s0),
                k <= total,
                self.nodes@ == s0.nodes,
                total > 0 ==> self.next_node == ring(s0.next_node as int, k as int, total as int),
                total == 0 ==> self.next_node == s0.next_node,
                forall|j: int| 0 <= j < k ==> !available(#[trigger] s0.nodes[ring(s0.next_node as int, j, total as int)]),
            decreases total - k,
        {
            let idx = self.next_node;
            assert(idx < total);
            self.next_node = if self.next_node + 1 == total { 0 } else { self.next_node + 1 };
            let mut node = self.nodes[idx];
            if node.active && node.current_load < node.capacity {
                proof {
                    assert(first_available(s0, k as int));
                    let c = choose|x: int| first_available(s0, x);
                    lemma_first_available_unique(s0, c, k as int);
                }
                node.current_load = node.current_load + 1;
                self.nodes.set(idx, node);
                assert(self.next_node == ring(idx as int, 1, total as int));
                assert(self@.nodes == schedule_spec(s0).0.nodes);
                return Some(node.id);
            }
            k = k + 1;
        }
        proof {
            if exists|x: int| first_available(s0, x) {
                let c = choose|x: int| first_available(s0, x);
                assert(!available(s0.nodes[ring(s0.next_node as int, c, total as int)]));
            }
        }
        None
    }

    /// One query on node `node_id` is done: its load goes down by one, if it has any.
    pub fn complete_job(&mut self, node_id: u64)
        ensures
            final(self)@ == (SchedulerV {
                nodes: with_first(old(self)@.nodes, node_id, |n: Node| if n.current_load > 0 { Node { current_load: (n.current_load - 1) as usize, ..n } } else { n }),
                ..old(self)@
            }),
    {
        match position_of(&self.nodes, node_id) {
            Some(i) => {
                proof {
                    let c = choose|x: int| first_with_id(self.nodes@, node_id, x);
                    lemma_first_with_id_unique(self.nodes@, node_id, c, i as int);
                }
                let mut n = self.nodes[i];
                if n.current_load > 0 {
                    n.current_load = n.current_load - 1;
                }
                self.nodes.set(i, n);
            },
            None => {},
        }
    }

    /// Node `node_id` goes down.
    pub fn fail_node(&mut self, node_id: u64)
        ensures
            final(self)@ == (SchedulerV { nodes: with_first(old(self)@.nodes, node_id, |n: Node| Node { active: false, ..n }), ..old(self)@ }),
    {
        match position_of(&self.nodes, node_id) {
            Some(i) => {
                proof {
                    let c = choose|x: int| first_with_id(self.nodes@, node_id, x);
                    lemma_first_with_id_unique(self.nodes@, node_id, c, i as int);
                }
                let mut n = self.nodes[i];
                n.active = false;
                self.nodes.set(i, n);
            },
            None => {},
        }
    }

    /// Node `node_id` is up again.
    pub fn recover_node(&mut self, node_id: u64)
        ensures
            final(self)@ == (SchedulerV { nodes: with_first(old(self)@.nodes, node_id, |n: Node| Node { active: true, ..n }), ..old(self)@ }),
    {
        match position_of(&self.nodes, node_id) {
            Some(i) => {
                proof {
                    let c = choose|x: int| first_with_id(self.nodes@, node_id, x);
                    lemma_first_with_id_unique(self.nodes@, node_id, c, i as int);
                }
                let mut n = self.nodes[i];
                n.active = true;
                self.nodes.set(i, n);
            },
            None => {},
        }
    }
}

/// The lines of the cluster report: one line per node, framed.
pub open spec fn cluster_lines_spec(s: SchedulerV) -> Seq<Seq<char>> {
    seq!["\n===== CLUSTER STATUS ====="@] + s.nodes.map_values(|n: Node| node_text(n)) + seq!["==========================\n"@]
}

impl Scheduler {
    /// The lines of the cluster report.
    pub fn cluster_status_lines(&self) -> (r: Vec<String>)
        ensures
            r@.map_values(|l: String| l@) == cluster_lines_spec(self@),
    {
        let mut out: Vec<String> = Vec::new();
        out.push("\n===== CLUSTER STATUS =====".to_owned());
        let ghost head = out@.map_values(|l: String| l@);
        let mut i: usize = 0;
        while i < self.nodes.len()
            invariant
                i <= self.nodes@.len(),
                head.len() == 1,
                out@.map_values(|l: String| l@) =~= head + self.nodes@.take(i as int).map_values(|n: Node| node_text(n)),
            decreases self.nodes@.len() - i,
        {
            let n = self.nodes[i];
            let ghost p = out@;
            out.push(n.to_string());
            assert(out@.map_values(|l: String| l@) =~= p.map_values(|l: String| l@).push(node_text(n)));
            assert(self.nodes@.take(i + 1) =~= self.nodes@.take(i as int).push(n));
            i = i + 1;
        }
        assert(self.nodes@.take(i as int) =~= self.nodes@);
        let ghost p = out@;
        out.push("==========================\n".to_owned());
        assert(out@.map_values(|l: String| l@) =~= p.map_values(|l: String| l@).push("==========================\n"@));
        out
    }
}

} // verus!

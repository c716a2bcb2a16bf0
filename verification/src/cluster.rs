//! A node's bookkeeping: the instructions a leader distributes and waits on,
//! how insert rows are split among followers, and which instruction a job
//! belongs to.

use vstd::prelude::*;
use crate::command::{Command, CommandV};
use crate::command::strings_view;
use crate::engine::entities_view;
use crate::executor::{format_rows, format_rows_spec};
use crate::protocol::{Message, MessageType, MessageTypeV, MessageV};
use crate::text::{str_eq, text_bytes};
use crate::types::{Entity, EntityV};
use vstd::utf8::encode_utf8;

verus! {

/// Whether a follower has done its part of an instruction.
#[derive(Debug)]
pub struct NodeStatus {
    pub id: String,
    pub status: bool,
}

pub struct NodeStatusV {
    pub id: Seq<char>,
    pub status: bool,
}

impl View for NodeStatus {
    type V = NodeStatusV;

    open spec fn view(&self) -> NodeStatusV {
        NodeStatusV { id: self.id@, status: self.status }
    }
}

pub open spec fn statuses_view(v: Seq<NodeStatus>) -> Seq<NodeStatusV> {
    v.map_values(|n: NodeStatus| n@)
}

/// An instruction the leader distributed: which followers have answered, and
/// what they answered.
pub struct Instruction {
    pub id: String,
    pub nodes_status: Vec<NodeStatus>,
    pub response_message: Option<String>,
    pub response_rows: Option<Vec<Entity>>,
}

pub struct InstructionV {
    pub id: Seq<char>,
    pub nodes_status: Seq<NodeStatusV>,
    pub response_message: Option<Seq<char>>,
    pub response_rows: Option<Seq<EntityV>>,
}

impl View for Instruction {
    type V = InstructionV;

    open spec fn view(&self) -> InstructionV {
        InstructionV {
            id: self.id@,
            nodes_status: statuses_view(self.nodes_status@),
            response_message: match self.response_message {
                Some(m) => Some(m@),
                None => None,
            },
            response_rows: match self.response_rows {
                Some(r) => Some(entities_view(r@)),
                None => None,
            },
        }
    }
}

/// The distinct ids of a list, first occurrences in order.
pub open spec fn distinct_ids(ids: Seq<Seq<char>>) -> Seq<Seq<char>>
    decreases ids.len(),
{
    if ids.len() == 0 {
        Seq::empty()
    } else {
        let d = distinct_ids(ids.drop_last());
        if d.contains(ids.last()) { d } else { d.push(ids.last()) }
    }
}

/// Marking node `node_id` done.
pub open spec fn mark_spec(ns: Seq<NodeStatusV>, node_id: Seq<char>) -> Seq<NodeStatusV> {
    Seq::new(ns.len(), |i: int| if ns[i].id == node_id { NodeStatusV { id: ns[i].id, status: true } } else { ns[i] })
}

/// Whether every follower is done.
pub open spec fn finished_spec(ns: Seq<NodeStatusV>) -> bool {
    forall|i: int| 0 <= i < ns.len() ==> #[trigger] ns[i].status
}

/// The rows and message of a follower's answer added to what came before:
/// rows are appended, a message replaces the earlier one.
pub open spec fn absorb_spec(inst: InstructionV, rows: Option<Seq<EntityV>>, message: Option<Seq<char>>) -> InstructionV {
    InstructionV {
        response_rows: match rows {
            None => inst.response_rows,
            Some(r) => match inst.response_rows {
                Some(existing) => Some(existing + r),
                None => Some(r),
            },
        },
        response_message: match message {
            Some(m) => Some(m),
            None => inst.response_message,
        },
        ..inst
    }
}

/// The payload of the answer to the client: the message, which wins, or the
/// rows formatted, or nothing.
pub open spec fn final_payload_spec(inst: InstructionV) -> Seq<u8> {
    match inst.response_message {
        Some(m) => encode_utf8(m),
        None => match inst.response_rows {
            Some(rows) => encode_utf8(format_rows_spec(rows)),
            None => Seq::empty(),
        },
    }
}

fn contains_text(v: &Vec<String>, s: &str) -> (r: bool)
    ensures
        r == strings_view(v@).contains(s@),
{
    let mut i: usize = 0;
    while i < v.len()
        invariant
            i <= v@.len(),
            forall|j: int| 0 <= j < i ==> #[trigger] v@[j]@ != s@,
        decreases v@.len() - i,
    {
        if str_eq(v[i].as_str(), s) {
            assert(strings_view(v@)[i as int] == s@);
            return true;
        }
        i = i + 1;
    }
    proof {
        if strings_view(v@).contains(s@) {
            let k = choose|k: int| 0 <= k < strings_view(v@).len() && strings_view(v@)[k] == s@;
            assert(v@[k]@ == s@);
        }
    }
    false
}

impl Instruction {
    /// A new instruction waiting on each of the followers once.
    pub fn new(id: String, follower_ids: &Vec<String>) -> (r: Instruction)
        ensures
            r@.id == id@,
            r@.nodes_status == distinct_ids(strings_view(follower_ids@)).map_values(|n: Seq<char>| NodeStatusV { id: n, status: false }),
            r@.response_message is None,
            r@.response_rows is None,
    {
        let ghost fv = strings_view(follower_ids@);
        let mut seen: Vec<String> = Vec::new();
        let mut ns: Vec<NodeStatus> = Vec::new();
        let mut i: usize = 0;
        while i < follower_ids.len()
            invariant
                i <= follower_ids@.len(),
                fv == strings_view(follower_ids@),
                strings_view(seen@) == distinct_ids(fv.take(i as int)),
                statuses_view(ns@) == distinct_ids(fv.take(i as int)).map_values(|n: Seq<char>| NodeStatusV { id: n, status: false }),
            decreases follower_ids@.len() - i,
        {
            assert(fv.take(i + 1).drop_last() =~= fv.take(i as int));
            assert(fv.take(i + 1).last() == follower_ids@[i as int]@);
            let ip = &follower_ids[i];
            if !contains_text(&seen, ip.as_str()) {
                let ghost ps = seen@;
                let ghost pn = ns@;
                seen.push(ip.clone());
                ns.push(NodeStatus { id: ip.clone(), status: false });
                assert(strings_view(seen@) =~= strings_view(ps).push(ip@));
                assert(statuses_view(ns@) =~= statuses_view(pn).push(NodeStatusV { id: ip@, status: false }));
                assert(distinct_ids(fv.take(i + 1)).map_values(|n: Seq<char>| NodeStatusV { id: n, status: false })
                    =~= distinct_ids(fv.take(i as int)).map_values(|n: Seq<char>| NodeStatusV { id: n, status: false }).push(NodeStatusV { id: ip@, status: false }));
            }
            i = i + 1;
        }
        assert(fv.take(i as int) =~= fv);
        Instruction { id, nodes_status: ns, response_message: None, response_rows: None }
    }

    /// Follower `node_id` has done its part.
    pub fn mark_done(&mut self, node_id: &str)
        ensures
            final(self)@ == (InstructionV { nodes_status: mark_spec(old(self)@.nodes_status, node_id@), ..old(self)@ }),
    {
        let ghost ns0 = old(self)@.nodes_status;
        let mut i: usize = 0;
        while i < self.nodes_status.len()
            invariant
                i <= ns0.len(),
                self.id@ == old(self)@.id,
                self@.response_message == old(self)@.response_message,
                self@.response_rows == old(self)@.response_rows,
                statuses_view(self.nodes_status@).len() == ns0.len(),
                forall|j: int| 0 <= j < i ==> #[trigger] statuses_view(self.nodes_status@)[j] == mark_spec(ns0, node_id@)[j],
                forall|j: int| i <= j < ns0.len() ==> #[trigger] statuses_view(self.nodes_status@)[j] == ns0[j],
            decreases ns0.len() - i,
        {
            assert(statuses_view(self.nodes_status@)[i as int] == ns0[i as int]);
            if str_eq(self.nodes_status[i].id.as_str(), node_id) {
                let ghost prev = self.nodes_status@;
                let id = self.nodes_status[i].id.clone();
                self.nodes_status.set(i, NodeStatus { id, status: true });
                assert(statuses_view(self.nodes_status@) =~= statuses_view(prev).update(i as int, NodeStatusV { id: ns0[i as int].id, status: true }));
            }
            i = i + 1;
        }
        assert(statuses_view(self.nodes_status@) =~= mark_spec(ns0, node_id@));
    }

    /// Whether every follower has done its part.
    pub fn is_finished(&self) -> (r: bool)
        ensures
            r == finished_spec(self@.nodes_status),
    {
        let mut i: usize = 0;
        while i < self.nodes_status.len()
            invariant
                i <= self.nodes_status@.len(),
                forall|j: int| 0 <= j < i ==> #[trigger] statuses_view(self.nodes_status@)[j].status,
            decreases self.nodes_status@.len() - i,
        {
            if !self.nodes_status[i].status {
                assert(!statuses_view(self.nodes_status@)[i as int].status);
                return false;
            }
            i = i + 1;
        }
        true
    }

    /// Adds a follower's answer: its rows after the rows so far, and its
    /// message in place of the earlier one.
    pub fn absorb(&mut self, rows: Option<Vec<Entity>>, message: Option<String>)
        ensures
            final(self)@ == absorb_spec(old(self)@,
                match rows { Some(r) => Some(entities_view(r@)), None => None },
                match message { Some(m) => Some(m@), None => None }),
    {
        match rows {
            Some(r) => {
                let merged = match self.response_rows.take() {
                    Some(mut existing) => {
                        let ghost e0 = existing@;
                        let ghost r0 = r@;
                        let mut r = r;
                        existing.append(&mut r);
                        assert(entities_view(existing@) =~= entities_view(e0) + entities_view(r0));
                        existing
                    },
                    None => r,
                };
                self.response_rows = Some(merged);
            },
            None => {},
        }
        match message {
            Some(m) => {
                self.response_message = Some(m);
            },
            None => {},
        }
    }

    /// The payload of the answer to the client.
    pub fn final_payload(&self) -> (r: Vec<u8>)
        ensures
            r@ == final_payload_spec(self@),
    {
        match &self.response_message {
            Some(m) => text_bytes(m.as_str()),
            None => match &self.response_rows {
                Some(rows) => {
                    let text = format_rows(crate::executor::clone_rows(rows));
                    text_bytes(text.as_str())
                },
                None => Vec::new(),
            },
        }
    }

    /// Only the followers in `used` are waited on.
    pub fn retain_used(&mut self, used: &Vec<String>)
        ensures
            final(self)@ == (InstructionV {
                nodes_status: old(self)@.nodes_status.filter(|n: NodeStatusV| strings_view(used@).contains(n.id)),
                ..old(self)@
            }),
    {
        let ghost f = |n: NodeStatusV| strings_view(used@).contains(n.id);
        let ghost ns0 = self@.nodes_status;
        let mut kept: Vec<NodeStatus> = Vec::new();
        let mut i: usize = 0;
        while i < self.nodes_status.len()
            invariant
                i <= ns0.len(),
                statuses_view(self.nodes_status@) == ns0,
                self@ == old(self)@,
                f == (|n: NodeStatusV| strings_view(used@).contains(n.id)),
                statuses_view(kept@) == ns0.take(i as int).filter(f),
            decreases ns0.len() - i,
        {
            let n = &self.nodes_status[i];
            assert(n@ == ns0[i as int]);
            assert(ns0.take(i + 1).drop_last() =~= ns0.take(i as int));
            reveal_with_fuel(Seq::filter, 1);
            if contains_text(used, n.id.as_str()) {
                let ghost p = kept@;
                kept.push(NodeStatus { id: n.id.clone(), status: n.status });
                assert(statuses_view(kept@) =~= statuses_view(p).push(ns0[i as int]));
            }
            i = i + 1;
        }
        assert(ns0.take(i as int) =~= ns0);
        self.nodes_status = kept;
    }
}

/// The number of rows each follower gets: the rows divided by the followers,
/// rounded up.
pub open spec fn chunk_size(total: nat, followers: nat) -> nat {
    if followers == 0 { 0 } else { (total / followers + if total % followers != 0 { 1nat } else { 0nat }) as nat }
}

/// The number of chunks the rows fall into.
pub open spec fn chunk_count(total: nat, followers: nat) -> nat {
    let cs = chunk_size(total, followers);
    if cs == 0 { 0 } else { (total / cs + if total % cs != 0 { 1nat } else { 0nat }) as nat }
}

/// The rows of chunk `k`.
pub open spec fn chunk_of(rows: Seq<EntityV>, cs: nat, k: int) -> Seq<EntityV> {
    let start = k * cs;
    let end = if (k + 1) * cs < rows.len() { (k + 1) * cs } else { rows.len() as int };
    rows.subrange(start, end)
}

proof fn lemma_ceil_div(total: nat, d: nat)
    requires
        total > 0,
        d > 0,
    ensures
        ({
            let c = (total / d + if total % d != 0 { 1nat } else { 0nat }) as nat;
            &&& c >= 1
            &&& c * d >= total
            &&& (c - 1) * d < total
            &&& c <= total
        }),
{
    let q = total / d;
    let r = total % d;
    vstd::arithmetic::div_mod::lemma_fundamental_div_mod(total as int, d as int);
    vstd::arithmetic::div_mod::lemma_mod_pos_bound(total as int, d as int);
    assert(total == d * q + r);
    let c = (q + if r != 0 { 1nat } else { 0nat }) as nat;
    if r != 0 {
        assert(c * d >= total) by (nonlinear_arith) requires c == q + 1, total == d * q + r, r < d;
        assert((c - 1) * d < total) by (nonlinear_arith) requires c == q + 1, total == d * q + r, r > 0;
        assert(c <= total) by (nonlinear_arith) requires c == q + 1, total == d * q + r, r > 0, d >= 1;
    } else {
        assert(q >= 1) by (nonlinear_arith) requires total == d * q, total > 0;
        assert(c * d >= total) by (nonlinear_arith) requires c == q, total == d * q + r, r == 0;
        assert((c - 1) * d < total) by (nonlinear_arith) requires c == q, total == d * q, d > 0;
        assert(c <= total) by (nonlinear_arith) requires c == q, total == d * q, d >= 1;
    }
}

proof fn lemma_chunk_bounds(total: nat, n: nat)
    requires
        total > 0,
        n > 0,
    ensures
        chunk_size(total, n) >= 1,
        chunk_size(total, n) <= total,
        chunk_size(total, n) * n >= total,
        chunk_count(total, n) <= n,
        chunk_count(total, n) >= 1,
        chunk_count(total, n) * chunk_size(total, n) >= total,
        (chunk_count(total, n) - 1) * chunk_size(total, n) < total,
{
    lemma_ceil_div(total, n);
    let cs = chunk_size(total, n);
    lemma_ceil_div(total, cs);
    let c = chunk_count(total, n);
    assert(c <= n) by (nonlinear_arith)
        requires
            (c - 1) * cs < total,
            cs * n >= total,
            cs > 0,
            c >= 1,
    ;
}

/// Splits insert rows among followers: each follower in turn gets the next
/// chunk of at most `chunk_size` rows, until the rows run out.
pub fn split_rows(rows: &Vec<Entity>, followers: &Vec<String>) -> (r: Vec<(String, Vec<Entity>)>)
    requires
        rows@.len() > 0,
        followers@.len() > 0,
    ensures
        r@.len() == chunk_count(rows@.len(), followers@.len()),
        forall|k: int| 0 <= k < r@.len() ==> {
            &&& (#[trigger] r@[k]).0@ == followers@[k]@
            &&& entities_view(r@[k].1@) == chunk_of(entities_view(rows@), chunk_size(rows@.len(), followers@.len()), k)
        },
{
    let total = rows.len();
    let n = followers.len();
    proof { lemma_chunk_bounds(total as nat, n as nat); }
    let cs: usize = total / n + if total % n != 0 { 1 } else { 0 };
    let ghost rv = entities_view(rows@);
    let ghost count = chunk_count(total as nat, n as nat);
    let mut out: Vec<(String, Vec<Entity>)> = Vec::new();
    let mut k: usize = 0;
    let mut start: usize = 0;
    while start < total
        invariant
            cs == chunk_size(total as nat, n as nat),
            cs >= 1,
            total == rows@.len(),
            n == followers@.len(),
            rv == entities_view(rows@),
            count == chunk_count(total as nat, n as nat),
            count <= n,
            count * cs >= total,
            (count - 1) * cs < total,
            start <= total,
            start < total ==> start == k * cs && k < count,
            start == total ==> k == count,
            out@.len() == k,
            forall|j: int| 0 <= j < k ==> {
                &&& (#[trigger] out@[j]).0@ == followers@[j]@
                &&& entities_view(out@[j].1@) == chunk_of(rv, cs as nat, j)
            },
        decreases total - start,
    {
        let end: usize = if total - start > cs { start + cs } else { total };
        let mut chunk: Vec<Entity> = Vec::new();
        let mut i: usize = start;
        while i < end
            invariant
                start <= i <= end,
                end <= total,
                total == rows@.len(),
                rv == entities_view(rows@),
                entities_view(chunk@) =~= rv.subrange(start as int, i as int),
            decreases end - i,
        {
            let ghost p = chunk@;
            chunk.push(rows[i].clone());
            assert(entities_view(chunk@) =~= entities_view(p).push(rv[i as int]));
            i = i + 1;
        }
        assert((k + 1) * cs == k * cs + cs) by (nonlinear_arith);
        assert(entities_view(chunk@) == chunk_of(rv, cs as nat, k as int));
        out.push((followers[k].clone(), chunk));
        proof {
            if end < total {
                assert(k + 1 < count) by (nonlinear_arith)
                    requires (k + 1) * cs < total, count * cs >= total, cs >= 1;
            } else {
                assert(k + 1 >= count) by (nonlinear_arith)
                    requires (k + 1) * cs >= total, (count - 1) * cs < total, cs >= 1;
            }
        }
        k = k + 1;
        start = end;
    }
    out
}

/// The first `m` chunks, one after the other.
pub open spec fn chunks_joined(rows: Seq<EntityV>, cs: nat, m: int) -> Seq<EntityV>
    decreases m,
{
    if m <= 0 { Seq::empty() } else { chunks_joined(rows, cs, m - 1) + chunk_of(rows, cs, m - 1) }
}

proof fn lemma_chunks_joined(rows: Seq<EntityV>, cs: nat, m: int)
    requires
        cs >= 1,
        0 <= m,
        (m - 1) * cs < rows.len(),
    ensures
        chunks_joined(rows, cs, m) == rows.take(if m * cs < rows.len() { m * cs } else { rows.len() as int }),
    decreases m,
{
    if m > 0 {
        assert((m - 2) * cs < (m - 1) * cs) by (nonlinear_arith) requires cs >= 1;
        assert((m - 1) * cs >= 0) by (nonlinear_arith) requires m >= 1, cs >= 1;
        assert(m * cs == (m - 1) * cs + cs) by (nonlinear_arith);
        lemma_chunks_joined(rows, cs, m - 1);
        assert(chunks_joined(rows, cs, m) =~= rows.take(if m * cs < rows.len() { m * cs } else { rows.len() as int }));
    } else {
        assert(rows.take(0) =~= Seq::<EntityV>::empty());
    }
}

/// Splitting insert rows sends every row exactly once and in order: the
/// chunks, one after the other, are the rows; no chunk is larger than the
/// chunk size, and no more chunks are made than there are followers.
pub proof fn law_split_covers_rows(rows: Seq<EntityV>, followers: nat)
    requires
        rows.len() > 0,
        followers > 0,
    ensures
        chunks_joined(rows, chunk_size(rows.len(), followers), chunk_count(rows.len(), followers) as int) == rows,
        chunk_count(rows.len(), followers) <= followers,
        forall|k: int| 0 <= k < chunk_count(rows.len(), followers) ==> (#[trigger] chunk_of(rows, chunk_size(rows.len(), followers), k)).len() <= chunk_size(rows.len(), followers),
{
    lemma_chunk_bounds(rows.len(), followers);
    let cs = chunk_size(rows.len(), followers);
    let c = chunk_count(rows.len(), followers);
    lemma_chunks_joined(rows, cs, c as int);
    assert(rows.take(rows.len() as int) =~= rows);
    assert forall|k: int| 0 <= k < c implies (#[trigger] chunk_of(rows, cs, k)).len() <= cs by {
        assert((k + 1) * cs == k * cs + cs) by (nonlinear_arith);
        assert(k * cs < rows.len()) by (nonlinear_arith) requires k <= c - 1, (c - 1) * cs < rows.len(), cs >= 1, k >= 0;
        assert(k * cs >= 0) by (nonlinear_arith) requires k >= 0, cs >= 1;
    }
}

/// Which instruction each job belongs to: job id and instruction id.
pub struct JobTable {
    pub entries: Vec<(String, String)>,
}

pub open spec fn pairs_view(v: Seq<(String, String)>) -> Seq<(Seq<char>, Seq<char>)> {
    v.map_values(|p: (String, String)| (p.0@, p.1@))
}

impl View for JobTable {
    type V = Seq<(Seq<char>, Seq<char>)>;

    open spec fn view(&self) -> Seq<(Seq<char>, Seq<char>)> {
        pairs_view(self.entries@)
    }
}

/// `i` is the first entry for key `k`.
pub open spec fn key_at(s: Seq<(Seq<char>, Seq<char>)>, k: Seq<char>, i: int) -> bool {
    &&& 0 <= i < s.len()
    &&& s[i].0 == k
    &&& forall|j: int| 0 <= j < i ==> #[trigger] s[j].0 != k
}

/// The instruction of job `k`, if it has one.
pub open spec fn lookup(s: Seq<(Seq<char>, Seq<char>)>, k: Seq<char>) -> Option<Seq<char>> {
    if exists|i: int| key_at(s, k, i) {
        Some(s[choose|i: int| key_at(s, k, i)].1)
    } else {
        None
    }
}

/// Job `k` belongs to instruction `v` now.
pub open spec fn assign_spec(s: Seq<(Seq<char>, Seq<char>)>, k: Seq<char>, v: Seq<char>) -> Seq<(Seq<char>, Seq<char>)> {
    if exists|i: int| key_at(s, k, i) {
        s.update(choose|i: int| key_at(s, k, i), (k, v))
    } else {
        s.push((k, v))
    }
}

proof fn lemma_key_at_unique(s: Seq<(Seq<char>, Seq<char>)>, k: Seq<char>, a: int, b: int)
    requires
        key_at(s, k, a),
        key_at(s, k, b),
    ensures
        a == b,
{
    if a < b {
        assert(s[a].0 != k);
    }
    if b < a {
        assert(s[b].0 != k);
    }
}

fn find_key(t: &JobTable, k: &str) -> (r: Option<usize>)
    ensures
        match r {
            Some(i) => key_at(t@, k@, i as int),
            None => forall|i: int| !key_at(t@, k@, i),
        },
{
    let mut i: usize = 0;
    while i < t.entries.len()
        invariant
            i <= t.entries@.len(),
            forall|j: int| 0 <= j < i ==> #[trigger] t@[j].0 != k@,
        decreases t.entries@.len() - i,
    {
        if str_eq(t.entries[i].0.as_str(), k) {
            return Some(i);
        }
        i = i + 1;
    }
    None
}

impl JobTable {
    pub fn new() -> (r: JobTable)
        ensures
            r@ == Seq::<(Seq<char>, Seq<char>)>::empty(),
    {
        let t = JobTable { entries: Vec::new() };
        assert(t@ =~= Seq::<(Seq<char>, Seq<char>)>::empty());
        t
    }

    /// Job `job_id` belongs to instruction `inst_id`.
    pub fn insert(&mut self, job_id: &str, inst_id: &str)
        ensures
            final(self)@ == assign_spec(old(self)@, job_id@, inst_id@),
    {
        match find_key(self, job_id) {
            Some(i) => {
                proof {
                    let c = choose|x: int| key_at(old(self)@, job_id@, x);
                    lemma_key_at_unique(old(self)@, job_id@, c, i as int);
                }
                let ghost p = self.entries@;
                self.entries.set(i, (job_id.to_owned(), inst_id.to_owned()));
                assert(pairs_view(self.entries@) =~= pairs_view(p).update(i as int, (job_id@, inst_id@)));
            },
            None => {
                let ghost p = self.entries@;
                self.entries.push((job_id.to_owned(), inst_id.to_owned()));
                assert(pairs_view(self.entries@) =~= pairs_view(p).push((job_id@, inst_id@)));
            },
        }
    }

    /// The instruction job `job_id` belongs to.
    pub fn get(&self, job_id: &str) -> (r: Option<String>)
        ensures
            match r {
                Some(v) => lookup(self@, job_id@) == Some(v@),
                None => lookup(self@, job_id@) is None,
            },
    {
        match find_key(self, job_id) {
            Some(i) => {
                proof {
                    let c = choose|x: int| key_at(self@, job_id@, x);
                    lemma_key_at_unique(self@, job_id@, c, i as int);
                }
                Some(self.entries[i].1.clone())
            },
            None => None,
        }
    }
}

/// A job's instruction reads back as the last one it was given, and giving
/// one job an instruction leaves the others' as they were.
pub proof fn law_job_lookup_after_assign(s: Seq<(Seq<char>, Seq<char>)>, k: Seq<char>, v: Seq<char>, other: Seq<char>)
    requires
        other != k,
    ensures
        lookup(assign_spec(s, k, v), k) == Some(v),
        lookup(assign_spec(s, k, v), other) == lookup(s, other),
{
    let t = assign_spec(s, k, v);
    if exists|i: int| key_at(s, k, i) {
        let i = choose|i: int| key_at(s, k, i);
        assert(key_at(t, k, i));
        let c = choose|x: int| key_at(t, k, x);
        lemma_key_at_unique(t, k, c, i);
        if exists|j: int| key_at(s, other, j) {
            let j = choose|j: int| key_at(s, other, j);
            assert(key_at(t, other, j));
            let c2 = choose|x: int| key_at(t, other, x);
            lemma_key_at_unique(t, other, c2, j);
        } else {
            if exists|j: int| key_at(t, other, j) {
                let j = choose|j: int| key_at(t, other, j);
                assert forall|x: int| 0 <= x < j implies #[trigger] s[x].0 != other by {
                    assert(t[x].0 != other);
                }
                assert(key_at(s, other, j));
            }
        }
    } else {
        let i = s.len() as int;
        assert forall|j: int| 0 <= j < i implies #[trigger] t[j].0 != k by {
            if s[j].0 == k {
                assert(forall|x: int| !key_at(s, k, x));
                let first = first_index(s, k, j);
                assert(key_at(s, k, first));
            }
        }
        assert(key_at(t, k, i));
        let c = choose|x: int| key_at(t, k, x);
        lemma_key_at_unique(t, k, c, i);
        if exists|j: int| key_at(s, other, j) {
            let j = choose|j: int| key_at(s, other, j);
            assert(key_at(t, other, j));
            let c2 = choose|x: int| key_at(t, other, x);
            lemma_key_at_unique(t, other, c2, j);
        } else {
            if exists|j: int| key_at(t, other, j) {
                let j = choose|j: int| key_at(t, other, j);
                if j < s.len() {
                    assert forall|x: int| 0 <= x < j implies #[trigger] s[x].0 != other by {
                        assert(t[x].0 != other);
                    }
                    assert(key_at(s, other, j));
                }
            }
        }
    }
}

/// The first index at or before `j` whose key is `k`, given that `j` has key `k`.
proof fn first_index(s: Seq<(Seq<char>, Seq<char>)>, k: Seq<char>, j: int) -> (r: int)
    requires
        0 <= j < s.len(),
        s[j].0 == k,
    ensures
        key_at(s, k, r),
    decreases j,
{
    if forall|x: int| 0 <= x < j ==> #[trigger] s[x].0 != k {
        j
    } else {
        let x = choose|x: int| 0 <= x < j && #[trigger] s[x].0 == k;
        first_index(s, k, x)
    }
}

/// The command a follower gets: an insert goes, as the single chunk its one
/// row makes, to the first follower only; any other command goes to every follower.
pub open spec fn distribution_spec(c: CommandV, followers: Seq<Seq<char>>) -> Seq<(Seq<char>, CommandV)> {
    match c {
        CommandV::Insert(_) => if followers.len() == 0 { Seq::empty() } else { seq![(followers[0], c)] },
        _ => followers.map_values(|f: Seq<char>| (f, c)),
    }
}

pub open spec fn plan_view(v: Seq<(String, Command)>) -> Seq<(Seq<char>, CommandV)> {
    v.map_values(|p: (String, Command)| (p.0@, p.1@))
}

/// Which follower gets which command of a led instruction.
pub fn plan_distribution(cmd: &Command, followers: &Vec<String>) -> (r: Vec<(String, Command)>)
    ensures
        plan_view(r@) == distribution_spec(cmd@, strings_view(followers@)),
{
    let mut out: Vec<(String, Command)> = Vec::new();
    match cmd {
        Command::Insert(entity) => {
            if followers.len() == 0 {
                assert(plan_view(out@) =~= Seq::<(Seq<char>, CommandV)>::empty());
                return out;
            }
            let mut rows: Vec<Entity> = Vec::new();
            rows.push(entity.clone());
            proof { lemma_chunk_bounds(1, followers@.len() as nat); }
            let chunks = split_rows(&rows, followers);
            assert(chunks@.len() == 1);
            assert(chunks@[0].0@ == followers@[0]@);
            let (ip, chunk) = &chunks[0];
            assert(entities_view(chunk@) == chunk_of(entities_view(rows@), 1, 0));
            assert(entities_view(chunk@) =~= seq![entity@]);
            assert(chunk@.len() == 1);
            assert(entities_view(chunk@)[0] == chunk@[0]@);
            out.push((ip.clone(), Command::Insert(chunk[0].clone())));
            assert(strings_view(followers@)[0] == followers@[0]@);
            assert(plan_view(out@) =~= distribution_spec(cmd@, strings_view(followers@)));
            out
        },
        _ => {
            let mut i: usize = 0;
            while i < followers.len()
                invariant
                    i <= followers@.len(),
                    !(cmd@ is Insert),
                    plan_view(out@) =~= strings_view(followers@).take(i as int).map_values(|f: Seq<char>| (f, cmd@)),
                decreases followers@.len() - i,
            {
                let ghost p = out@;
                out.push((followers[i].clone(), cmd.clone()));
                assert(plan_view(out@) =~= plan_view(p).push((followers@[i as int]@, cmd@)));
                assert(strings_view(followers@).take(i + 1) =~= strings_view(followers@).take(i as int).push(followers@[i as int]@));
                i = i + 1;
            }
            assert(strings_view(followers@).take(i as int) =~= strings_view(followers@));
            out
        },
    }
}

/// The message a leader sends its followers for an instruction: the command
/// to execute, under the instruction's id; `None` when the message carries no command.
pub fn exec_message(msg: &Message) -> (r: Option<Message>)
    ensures
        match r {
            Some(m) => msg@.command is Some && m@.id == msg@.id && m@.msg_type is ExecCmd
                && m@.node_id == msg@.node_id && m@.command == msg@.command && m@.payload == Seq::<u8>::empty(),
            None => msg@.command is None,
        },
{
    match &msg.command {
        Some(c) => Some(Message::new(msg.id.clone(), MessageType::ExecCmd, msg.node_id.clone()).with_command(c.clone())),
        None => None,
    }
}

/// A successful response, with nothing but the payload.
pub open spec fn is_plain_response(m: MessageV, id: Seq<char>, node_id: Seq<char>, payload: Seq<u8>) -> bool {
    &&& m.id == id
    &&& m.node_id == node_id
    &&& m.command is None
    &&& m.payload == payload
    &&& m.msg_type == MessageTypeV::Response { sucess: true, message: None, data: None }
}

/// When job `job_id` completes, the follower answers the leader of its
/// instruction with the job's result: the instruction id and the response,
/// or `None` for a job it does not know.
pub fn job_complete_reply(table: &JobTable, job_id: &str, node_id: &str, payload: Vec<u8>) -> (r: Option<(String, Message)>)
    ensures
        match r {
            Some((inst, m)) => lookup(table@, job_id@) == Some(inst@) && is_plain_response(m@, inst@, node_id@, payload@),
            None => lookup(table@, job_id@) is None,
        },
{
    match table.get(job_id) {
        Some(inst) => {
            let m = Message::new(inst.clone(), MessageType::Response { sucess: true, message: None, data: None }, node_id.to_owned())
                .with_payload(payload);
            Some((inst, m))
        },
        None => None,
    }
}

/// The answer to the client once every follower has done its part.
pub fn client_answer(inst: &Instruction, node_id: &str) -> (r: Message)
    ensures
        is_plain_response(r@, inst@.id, node_id@, final_payload_spec(inst@)),
{
    Message::new(inst.id.clone(), MessageType::Response { sucess: true, message: None, data: None }, node_id.to_owned())
        .with_payload(inst.final_payload())
}

/// Every follower is done exactly when each one either was done before or is
/// the one that just reported.
pub proof fn law_finished_after_mark(ns: Seq<NodeStatusV>, node_id: Seq<char>)
    ensures
        finished_spec(mark_spec(ns, node_id)) <==> forall|i: int| 0 <= i < ns.len() ==> (#[trigger] ns[i].status || ns[i].id == node_id),
{
    if finished_spec(mark_spec(ns, node_id)) {
        assert forall|i: int| 0 <= i < ns.len() implies (#[trigger] ns[i].status || ns[i].id == node_id) by {
            assert(mark_spec(ns, node_id)[i].status);
        }
    }
}

/// An instruction that waits on distinct followers is finished after each of
/// them reported, in any order.
pub proof fn law_finished_after_all_reports(ns: Seq<NodeStatusV>, reports: Seq<Seq<char>>)
    requires
        forall|i: int| 0 <= i < ns.len() ==> #[trigger] reports.contains(ns[i].id),
    ensures
        finished_spec(marks(ns, reports)),
{
    lemma_marks_keep(ns, reports);
}

/// The statuses after the reports, in order.
pub open spec fn marks(ns: Seq<NodeStatusV>, reports: Seq<Seq<char>>) -> Seq<NodeStatusV>
    decreases reports.len(),
{
    if reports.len() == 0 { ns } else { mark_spec(marks(ns, reports.drop_last()), reports.last()) }
}

proof fn lemma_marks_keep(ns: Seq<NodeStatusV>, reports: Seq<Seq<char>>)
    ensures
        marks(ns, reports).len() == ns.len(),
        forall|i: int| 0 <= i < ns.len() ==> (#[trigger] marks(ns, reports)[i]).id == ns[i].id,
        forall|i: int| 0 <= i < ns.len() ==> (marks(ns, reports)[i].status <==> (ns[i].status || reports.contains(ns[i].id))),
    decreases reports.len(),
{
    if reports.len() > 0 {
        lemma_marks_keep(ns, reports.drop_last());
        let d = reports.drop_last();
        assert forall|i: int| 0 <= i < ns.len() implies (marks(ns, reports)[i].status <==> (ns[i].status || reports.contains(ns[i].id))) by {
            if reports.contains(ns[i].id) && !d.contains(ns[i].id) {
                let k = choose|k: int| 0 <= k < reports.len() && reports[k] == ns[i].id;
                if k < d.len() {
                    assert(d[k] == ns[i].id);
                }
            }
            if d.contains(ns[i].id) {
                let k = choose|k: int| 0 <= k < d.len() && d[k] == ns[i].id;
                assert(reports[k] == ns[i].id);
            }
        }
    }
}

} // verus!

//! The gateway's decisions: which nodes are registered, which one leads, which
//! client requests wait for a response, and what each incoming message leads to.

use vstd::prelude::*;
use crate::command::{cmd_error_text, CommandV};
use crate::command::strings_view;
use crate::parser::{parse_cmd, parse_outcome};
use crate::protocol::{Message, MessageType, MessageTypeV, MessageV};
use crate::sql::sql_parse;
use crate::text::{str_eq, utf8_string};
use vstd::utf8::{decode_utf8, valid_utf8};

verus! {

/// The gateway's routing state: registered node ids in the order they
/// registered, the leader, and the ids of client requests waiting for a response.
pub struct Gateway {
    nodes: Vec<String>,
    leader: Option<String>,
    requests: Vec<String>,
}

pub struct GatewayV {
    pub nodes: Seq<Seq<char>>,
    pub leader: Option<Seq<char>>,
    pub requests: Seq<Seq<char>>,
}

impl View for Gateway {
    type V = GatewayV;

    closed spec fn view(&self) -> GatewayV {
        GatewayV {
            nodes: strings_view(self.nodes@),
            leader: match self.leader {
                Some(l) => Some(l@),
                None => None,
            },
            requests: strings_view(self.requests@),
        }
    }
}

pub open spec fn opt_string_view(o: Option<String>) -> Option<Seq<char>> {
    match o {
        Some(l) => Some(l@),
        None => None,
    }
}

/// The gateway's invariant: no id is held twice, and there is a leader
/// exactly when some node is registered, and it is one of them.
pub open spec fn gateway_wf(g: GatewayV) -> bool {
    &&& g.nodes.no_duplicates()
    &&& g.requests.no_duplicates()
    &&& (g.leader is Some <==> g.nodes.len() > 0)
    &&& (g.leader matches Some(l) ==> g.nodes.contains(l))
}

/// A node registers: it is added if new, and it leads if no node leads.
pub open spec fn register_spec(g: GatewayV, id: Seq<char>) -> GatewayV {
    GatewayV {
        nodes: if g.nodes.contains(id) { g.nodes } else { g.nodes.push(id) },
        leader: if g.leader is None { Some(id) } else { g.leader },
        requests: g.requests,
    }
}

/// The ids other than `id`, in order.
pub open spec fn others(s: Seq<Seq<char>>, id: Seq<char>) -> Seq<Seq<char>> {
    s.filter(|n: Seq<char>| n != id)
}

/// A node goes away: it is removed, and if it led, the first remaining node
/// leads, or none when no node remains.
pub open spec fn remove_spec(g: GatewayV, id: Seq<char>) -> GatewayV {
    let rest = others(g.nodes, id);
    GatewayV {
        nodes: rest,
        leader: if g.leader == Some(id) {
            if rest.len() > 0 { Some(rest[0]) } else { None }
        } else {
            g.leader
        },
        requests: g.requests,
    }
}

/// A request starts waiting, unless it already does.
pub open spec fn add_request_spec(g: GatewayV, id: Seq<char>) -> GatewayV {
    GatewayV { requests: if g.requests.contains(id) { g.requests } else { g.requests.push(id) }, ..g }
}

/// A request stops waiting.
pub open spec fn take_request_spec(g: GatewayV, id: Seq<char>) -> GatewayV {
    GatewayV { requests: others(g.requests, id), ..g }
}

fn index_of(v: &Vec<String>, id: &str) -> (r: Option<usize>)
    ensures
        match r {
            Some(i) => i < v@.len() && v@[i as int]@ == id@ && strings_view(v@).contains(id@),
            None => !strings_view(v@).contains(id@),
        },
{
    let mut i: usize = 0;
    while i < v.len()
        invariant
            i <= v@.len(),
            forall|j: int| 0 <= j < i ==> #[trigger] v@[j]@ != id@,
        decreases v@.len() - i,
    {
        if str_eq(v[i].as_str(), id) {
            assert(strings_view(v@)[i as int] == id@);
            return Some(i);
        }
        i = i + 1;
    }
    proof {
        if strings_view(v@).contains(id@) {
            let k = choose|k: int| 0 <= k < strings_view(v@).len() && strings_view(v@)[k] == id@;
            assert(v@[k]@ == id@);
        }
    }
    None
}

/// The strings other than `id`, in order.
fn without(v: &Vec<String>, id: &str) -> (r: Vec<String>)
    ensures
        strings_view(r@) == others(strings_view(v@), id@),
{
    let ghost f = |n: Seq<char>| n != id@;
    let mut out: Vec<String> = Vec::new();
    let mut i: usize = 0;
    while i < v.len()
        invariant
            i <= v@.len(),
            f == (|n: Seq<char>| n != id@),
            strings_view(out@) == strings_view(v@).take(i as int).filter(f),
        decreases v@.len() - i,
    {
        let ghost sv = strings_view(v@);
        assert(sv.take(i + 1).drop_last() =~= sv.take(i as int));
        assert(sv.take(i + 1).last() == v@[i as int]@);
        reveal_with_fuel(Seq::filter, 1);
        if !str_eq(v[i].as_str(), id) {
            let ghost p = out@;
            out.push(v[i].clone());
            assert(strings_view(out@) =~= strings_view(p).push(v@[i as int]@));
        }
        i = i + 1;
    }
    assert(strings_view(v@).take(i as int) =~= strings_view(v@));
    out
}

proof fn lemma_others_step(s: Seq<Seq<char>>, id: Seq<char>)
    requires
        s.len() > 0,
    ensures
        others(s, id) == (if s.last() != id { others(s.drop_last(), id).push(s.last()) } else { others(s.drop_last(), id) }),
{
    reveal_with_fuel(Seq::filter, 1);
}

proof fn lemma_filter_no_duplicates(s: Seq<Seq<char>>, id: Seq<char>)
    requires
        s.no_duplicates(),
    ensures
        others(s, id).no_duplicates(),
        !others(s, id).contains(id),
        forall|x: Seq<char>| x != id && s.contains(x) ==> #[trigger] others(s, id).contains(x),
        forall|x: Seq<char>| #[trigger] others(s, id).contains(x) ==> s.contains(x),
    decreases s.len(),
{
    if s.len() == 0 {
        reveal_with_fuel(Seq::filter, 1);
        assert(others(s, id) =~= Seq::<Seq<char>>::empty());
    } else {
        let d = s.drop_last();
        let last = s.last();
        assert(d.no_duplicates()) by {
            assert forall|i: int, j: int| 0 <= i < d.len() && 0 <= j < d.len() && i != j implies d[i] != d[j] by {
                assert(d[i] == s[i] && d[j] == s[j]);
            }
        }
        lemma_filter_no_duplicates(d, id);
        lemma_others_step(s, id);
        let od = others(d, id);
        let os = others(s, id);
        assert(!d.contains(last)) by {
            if d.contains(last) {
                let k = choose|k: int| 0 <= k < d.len() && d[k] == last;
                assert(s[k] == s[s.len() - 1]);
            }
        }
        assert forall|x: Seq<char>| x != id && s.contains(x) implies #[trigger] others(s, id).contains(x) by {
            let k = choose|k: int| 0 <= k < s.len() && s[k] == x;
            if k < s.len() - 1 {
                assert(d[k] == x);
                assert(d.contains(x));
                assert(od.contains(x));
                let m = choose|m: int| 0 <= m < od.len() && od[m] == x;
                if last != id {
                    assert(os[m] == x);
                }
            } else {
                assert(os[os.len() - 1] == x);
            }
        }
        assert forall|x: Seq<char>| #[trigger] others(s, id).contains(x) implies s.contains(x) by {
            let m = choose|m: int| 0 <= m < os.len() && os[m] == x;
            if last != id && m == os.len() - 1 {
                assert(s[s.len() - 1] == x);
            } else {
                assert(od[m] == x);
                assert(od.contains(x));
                let k = choose|k: int| 0 <= k < d.len() && d[k] == x;
                assert(s[k] == x);
            }
        }
        assert(os.no_duplicates()) by {
            if last != id {
                assert(!od.contains(last));
                assert forall|i: int, j: int| 0 <= i < os.len() && 0 <= j < os.len() && i != j implies os[i] != os[j] by {
                    if i == os.len() - 1 {
                        assert(od[j] == os[j]);
                        assert(od.contains(os[j]));
                    } else if j == os.len() - 1 {
                        assert(od[i] == os[i]);
                        assert(od.contains(os[i]));
                    } else {
                        assert(od[i] == os[i] && od[j] == os[j]);
                    }
                }
            }
        }
        assert(!os.contains(id)) by {
            if os.contains(id) {
                let m = choose|m: int| 0 <= m < os.len() && os[m] == id;
                if !(last != id && m == os.len() - 1) {
                    assert(od[m] == id);
                    assert(od.contains(id));
                }
            }
        }
    }
}

impl Gateway {
    /// Every gateway keeps its invariant.
    #[verifier::type_invariant]
    spec fn well_formed(self) -> bool {
        gateway_wf(self@)
    }

    /// A gateway with no nodes, no leader and no waiting requests.
    pub fn new() -> (r: Gateway)
        ensures
            r@ == (GatewayV { nodes: Seq::empty(), leader: None, requests: Seq::empty() }),
            gateway_wf(r@),
    {
        let nodes: Vec<String> = Vec::new();
        let requests: Vec<String> = Vec::new();
        assert(strings_view(nodes@) =~= Seq::<Seq<char>>::empty());
        assert(strings_view(requests@) =~= Seq::<Seq<char>>::empty());
        Gateway { nodes, leader: None, requests }
    }

    /// The registered node ids, in the order they registered.
    pub fn nodes(&self) -> (r: &Vec<String>)
        ensures
            strings_view(r@) == self@.nodes,
    {
        &self.nodes
    }

    /// The leader, if any node is registered.
    pub fn leader(&self) -> (r: Option<String>)
        ensures
            match r {
                Some(l) => self@.leader == Some(l@),
                None => self@.leader is None,
            },
    {
        match &self.leader {
            Some(l) => Some(l.clone()),
            None => None,
        }
    }

    /// The ids of the requests waiting for a response.
    pub fn requests(&self) -> (r: &Vec<String>)
        ensures
            strings_view(r@) == self@.requests,
    {
        &self.requests
    }

    /// Takes the state out, leaving an empty gateway.
    fn take_state(&mut self) -> (r: (Vec<String>, Option<String>, Vec<String>))
        ensures
            gateway_wf(old(self)@),
            strings_view(r.0@) == old(self)@.nodes,
            match r.1 {
                Some(l) => old(self)@.leader == Some(l@),
                None => old(self)@.leader is None,
            },
            strings_view(r.2@) == old(self)@.requests,
    {
        proof { use_type_invariant(&*self); }
        let mut g = Gateway::new();
        std::mem::swap(&mut g, self);
        let Gateway { nodes, leader, requests } = g;
        (nodes, leader, requests)
    }

    /// A node registers; the first node to register leads.
    pub fn register(&mut self, node_id: &str)
        ensures
            final(self)@ == register_spec(old(self)@, node_id@),
            gateway_wf(final(self)@),
    {
        let ghost g0 = self@;
        let (mut nodes, leader, requests) = self.take_state();
        match index_of(&nodes, node_id) {
            Some(_) => {},
            None => {
                nodes.push(node_id.to_owned());
                assert(strings_view(nodes@) =~= g0.nodes.push(node_id@));
            },
        }
        let leader = match leader {
            Some(l) => Some(l),
            None => Some(node_id.to_owned()),
        };
        let ghost g = GatewayV {
            nodes: strings_view(nodes@),
            leader: opt_string_view(leader),
            requests: strings_view(requests@),
        };
        proof {
            assert(g == register_spec(g0, node_id@));
            assert(g.nodes.contains(node_id@)) by {
                if !g0.nodes.contains(node_id@) {
                    assert(g.nodes[g.nodes.len() - 1] == node_id@);
                }
            }
            assert(g0.leader matches Some(l) ==> g.nodes.contains(l)) by {
                if g0.leader is Some {
                    let l = g0.leader.unwrap();
                    let k = choose|k: int| 0 <= k < g0.nodes.len() && g0.nodes[k] == l;
                    assert(g.nodes[k] == l);
                }
            }
            assert(g.nodes.no_duplicates()) by {
                if !g0.nodes.contains(node_id@) {
                    assert forall|i: int, j: int| 0 <= i < g.nodes.len() && 0 <= j < g.nodes.len() && i != j implies g.nodes[i] != g.nodes[j] by {
                        if i == g.nodes.len() - 1 {
                            assert(g0.nodes[j] == g.nodes[j]);
                        } else if j == g.nodes.len() - 1 {
                            assert(g0.nodes[i] == g.nodes[i]);
                        } else {
                            assert(g0.nodes[i] == g.nodes[i] && g0.nodes[j] == g.nodes[j]);
                        }
                    }
                }
            }
        }
        *self = Gateway { nodes, leader, requests };
    }

    /// A node goes away; if it led, the first remaining node leads.
    pub fn remove_node(&mut self, node_id: &str)
        ensures
            final(self)@ == remove_spec(old(self)@, node_id@),
            gateway_wf(final(self)@),
    {
        let ghost g0 = self@;
        let (nodes, leader, requests) = self.take_state();
        let rest = without(&nodes, node_id);
        let was_leader = match &leader {
            Some(l) => str_eq(l.as_str(), node_id),
            None => false,
        };
        let leader = if was_leader {
            if rest.len() > 0 {
                assert(strings_view(rest@)[0] == rest@[0]@);
                Some(rest[0].clone())
            } else {
                None
            }
        } else {
            leader
        };
        let ghost g = GatewayV {
            nodes: strings_view(rest@),
            leader: opt_string_view(leader),
            requests: strings_view(requests@),
        };
        proof {
            lemma_filter_no_duplicates(g0.nodes, node_id@);
            assert(g == remove_spec(g0, node_id@));
            if !was_leader && g0.leader is Some {
                assert(g0.leader.unwrap() != node_id@);
                assert(g.nodes.contains(g0.leader.unwrap()));
            }
            if was_leader && g.nodes.len() > 0 {
                assert(g.nodes.contains(g.nodes[0]));
            }
        }
        *self = Gateway { nodes: rest, leader, requests };
    }

    /// A client request starts waiting for its response.
    pub fn add_request(&mut self, request_id: &str)
        ensures
            final(self)@ == add_request_spec(old(self)@, request_id@),
            gateway_wf(final(self)@),
    {
        let ghost g0 = self@;
        let (nodes, leader, mut requests) = self.take_state();
        match index_of(&requests, request_id) {
            Some(_) => {},
            None => {
                requests.push(request_id.to_owned());
                proof {
                    let r = strings_view(requests@);
                    assert(r =~= g0.requests.push(request_id@));
                    assert forall|i: int, j: int| 0 <= i < r.len() && 0 <= j < r.len() && i != j implies r[i] != r[j] by {
                        if i == r.len() - 1 {
                            assert(g0.requests[j] == r[j]);
                        } else if j == r.len() - 1 {
                            assert(g0.requests[i] == r[i]);
                        } else {
                            assert(g0.requests[i] == r[i] && g0.requests[j] == r[j]);
                        }
                    }
                }
            },
        }
        *self = Gateway { nodes, leader, requests };
    }

    /// A response for request `request_id` arrived: whether that request was
    /// waiting; it waits no more.
    pub fn take_request(&mut self, request_id: &str) -> (r: bool)
        ensures
            r == old(self)@.requests.contains(request_id@),
            final(self)@ == take_request_spec(old(self)@, request_id@),
            gateway_wf(final(self)@),
    {
        let ghost g0 = self@;
        let (nodes, leader, requests) = self.take_state();
        let waiting = index_of(&requests, request_id).is_some();
        let rest = without(&requests, request_id);
        proof { lemma_filter_no_duplicates(g0.requests, request_id@); }
        *self = Gateway { nodes, leader, requests: rest };
        waiting
    }
}

/// What the gateway does with a message from a client.
pub enum ClientAction {
    /// Send `message` to the leader `leader`.
    ToLeader { leader: String, message: Message },
    /// Reply to the client.
    Reply(Message),
    /// The query parsed but no node leads.
    NoLeader,
    /// The payload of the query is no UTF-8.
    InvalidPayload,
    /// The message is no query.
    Unexpected,
}

/// The reply to a query that did not parse: a failed response with the error's message.
pub open spec fn parse_failure_reply(m: MessageV, err_text: Seq<char>) -> bool {
    &&& m.id == Seq::<char>::empty()
    &&& m.node_id == Seq::<char>::empty()
    &&& m.command is None
    &&& m.payload == Seq::<u8>::empty()
    &&& m.msg_type == MessageTypeV::Response { sucess: false, message: Some(err_text), data: None }
}

/// What the gateway does with a message from a node.
pub enum NodeAction {
    /// The node is registered.
    Registered,
    /// Forward the response to the client that waits for it.
    Forward(Message),
    /// A response no client waits for.
    Dropped,
    /// Any other message.
    Unexpected,
}

impl Gateway {
    /// A client's message: a query is parsed; one that does not parse is
    /// answered with the parse error, one that does is sent to the leader with
    /// every registered node as follower, and its request waits for the response.
    pub fn on_client_message(&mut self, msg: &Message) -> (r: ClientAction)
        ensures
            gateway_wf(final(self)@),
            !(msg@.msg_type is Query) ==> r is Unexpected && final(self)@ == old(self)@,
            msg@.msg_type is Query && !valid_utf8(msg@.payload) ==> r is InvalidPayload && final(self)@ == old(self)@,
            msg@.msg_type is Query && valid_utf8(msg@.payload) ==> match parse_outcome(sql_parse(decode_utf8(msg@.payload))) {
                Err(e) => final(self)@ == old(self)@ && (r matches ClientAction::Reply(m) && parse_failure_reply(m@, cmd_error_text(e))),
                Ok(c) => match old(self)@.leader {
                    None => r is NoLeader && final(self)@ == old(self)@,
                    Some(l) => final(self)@ == add_request_spec(old(self)@, msg@.id) && (r matches ClientAction::ToLeader { leader, message } && leader@ == l
                        && message@.id == msg@.id && message@.node_id == "gateway"@ && message@.command == Some(c)
                        && message@.payload == Seq::<u8>::empty()
                        && message@.msg_type == MessageTypeV::Lead { followers: old(self)@.nodes }),
                },
            },
    {
        proof { use_type_invariant(&*self); }
        match msg.msg_type {
            MessageType::Query => {},
            _ => return ClientAction::Unexpected,
        }
        let query = match utf8_string(msg.payload.clone()) {
            Some(q) => q,
            None => return ClientAction::InvalidPayload,
        };
        match parse_cmd(query.as_str()) {
            Ok(cmd) => {
                let leader = match &self.leader {
                    Some(l) => l.clone(),
                    None => return ClientAction::NoLeader,
                };
                let followers = crate::command::clone_strings(&self.nodes);
                let message = Message::new(msg.id.clone(), MessageType::Lead { followers }, "gateway".to_owned())
                    .with_command(cmd);
                self.add_request(msg.id.as_str());
                ClientAction::ToLeader { leader, message }
            },
            Err(e) => {
                let response = Message::new(
                    String::new(),
                    MessageType::Response { sucess: false, message: Some(e.to_string()), data: None },
                    String::new(),
                );
                ClientAction::Reply(response)
            },
        }
    }

    /// A node's message: a registration registers it; a response goes to the
    /// client whose request waits for it, and the request waits no more.
    pub fn on_node_message(&mut self, msg: Message) -> (r: NodeAction)
        ensures
            gateway_wf(final(self)@),
            msg@.msg_type is Register ==> r is Registered && final(self)@ == register_spec(old(self)@, msg@.node_id),
            msg@.msg_type is Response ==> final(self)@ == take_request_spec(old(self)@, msg@.id) && if old(self)@.requests.contains(msg@.id) {
                r matches NodeAction::Forward(m) && m@ == msg@
            } else {
                r is Dropped
            },
            !(msg@.msg_type is Register) && !(msg@.msg_type is Response) ==> r is Unexpected && final(self)@ == old(self)@,
    {
        proof { use_type_invariant(&*self); }
        match msg.msg_type {
            MessageType::Register => {
                self.register(msg.node_id.as_str());
                NodeAction::Registered
            },
            MessageType::Response { .. } => {
                if self.take_request(msg.id.as_str()) {
                    NodeAction::Forward(msg)
                } else {
                    NodeAction::Dropped
                }
            },
            _ => NodeAction::Unexpected,
        }
    }
}

/// A response to a request is forwarded at most once: once taken, the request
/// waits no more.
pub proof fn law_response_forwarded_once(g: GatewayV, id: Seq<char>)
    requires
        gateway_wf(g),
    ensures
        !take_request_spec(g, id).requests.contains(id),
        gateway_wf(take_request_spec(g, id)),
{
    lemma_filter_no_duplicates(g.requests, id);
}

/// The first node to register leads until it goes away: registering other
/// nodes never changes the leader.
pub proof fn law_leader_first_come(g: GatewayV, id: Seq<char>)
    requires
        gateway_wf(g),
        g.leader is Some,
    ensures
        register_spec(g, id).leader == g.leader,
{
}

/// When the leader goes away, another registered node leads if one remains;
/// removing any other node keeps the leader.
pub proof fn law_leader_replaced(g: GatewayV, id: Seq<char>)
    requires
        gateway_wf(g),
    ensures
        gateway_wf(remove_spec(g, id)),
        g.leader != Some(id) ==> remove_spec(g, id).leader == g.leader,
        remove_spec(g, id).leader matches Some(l) ==> l != id && g.nodes.contains(l),
{
    lemma_filter_no_duplicates(g.nodes, id);
    let rest = others(g.nodes, id);
    if rest.len() > 0 {
        assert(rest.contains(rest[0]));
    }
    if g.leader is Some && g.leader != Some(id) {
        assert(rest.contains(g.leader.unwrap()));
    }
}

} // verus!

//! The job service's decisions: which HTTP request a job's command becomes,
//! and the messages that start and complete a job.

use vstd::prelude::*;
use crate::command::{Command, CommandV};
use crate::engine::{conditions_view, data_view};
use crate::protocol::{Message, MessageType, MessageTypeV, MessageV};
use crate::text::{cat2, cat3, cat4, nat_digits, text_bytes, usize_to_string};
use crate::types::{Attr, AttrV, Condition, ConditionV, Data, DataV, Type, Value, ValueV};
use vstd::utf8::encode_utf8;

verus! {

/// The HTTP method of a request.
#[derive(Debug, Clone, Copy, PartialEq, Eq, Structural)]
pub enum HttpMethod {
    Get,
    Post,
    Put,
    Delete,
}

/// The JSON body of a request, member by member in the order written.
#[derive(Debug)]
pub enum JsonBody {
    /// `{"name": .., "attrs": [{"name": .., "data_type": ..}, ..]}`.
    CreateTable { name: String, attrs: Vec<(String, String)> },
    /// An object of cell values.
    Fields(Vec<(String, Value)>),
    /// `{"updates": {..}, "conditions": {..}}`.
    Update { updates: Vec<(String, Value)>, conditions: Vec<(String, Value)> },
}

pub enum JsonBodyV {
    CreateTable { name: Seq<char>, attrs: Seq<(Seq<char>, Seq<char>)> },
    Fields(Seq<(Seq<char>, ValueV)>),
    Update { updates: Seq<(Seq<char>, ValueV)>, conditions: Seq<(Seq<char>, ValueV)> },
}

pub open spec fn fields_view(v: Seq<(String, Value)>) -> Seq<(Seq<char>, ValueV)> {
    v.map_values(|p: (String, Value)| (p.0@, p.1@))
}

impl View for JsonBody {
    type V = JsonBodyV;

    open spec fn view(&self) -> JsonBodyV {
        match self {
            JsonBody::CreateTable { name, attrs } => JsonBodyV::CreateTable {
                name: name@,
                attrs: attrs@.map_values(|p: (String, String)| (p.0@, p.1@)),
            },
            JsonBody::Fields(f) => JsonBodyV::Fields(fields_view(f@)),
            JsonBody::Update { updates, conditions } => JsonBodyV::Update {
                updates: fields_view(updates@),
                conditions: fields_view(conditions@),
            },
        }
    }
}

/// An HTTP request to the database service.
#[derive(Debug)]
pub struct HttpRequest {
    pub method: HttpMethod,
    pub url: String,
    pub body: Option<JsonBody>,
}

pub struct HttpRequestV {
    pub method: HttpMethod,
    pub url: Seq<char>,
    pub body: Option<JsonBodyV>,
}

impl View for HttpRequest {
    type V = HttpRequestV;

    open spec fn view(&self) -> HttpRequestV {
        HttpRequestV {
            method: self.method,
            url: self.url@,
            body: match self.body {
                Some(b) => Some(b@),
                None => None,
            },
        }
    }
}

/// How a column type is named to the service: `INT` or `STRING`.
pub open spec fn service_type_name(t: Type) -> Seq<char> {
    match t {
        Type::Int => "INT"@,
        Type::VarChar(_) => "STRING"@,
    }
}

/// The members of the top-level comparisons of the conditions: each
/// compared column with its value; `AND` and `OR` add nothing.
pub open spec fn compare_members(cs: Seq<ConditionV>) -> Seq<(Seq<char>, ValueV)>
    decreases cs.len(),
{
    if cs.len() == 0 {
        Seq::empty()
    } else {
        let p = compare_members(cs.drop_last());
        match cs.last() {
            ConditionV::Compare { attr, value, .. } => p.push((attr, value)),
            _ => p,
        }
    }
}

pub open spec fn base_url(ip: Seq<char>) -> Seq<char> {
    "http://"@ + ip + "/tables"@
}

/// The request a job's command becomes.
pub open spec fn job_request_spec(c: CommandV, ip: Seq<char>) -> HttpRequestV {
    match c {
        CommandV::CreateTable(t) => HttpRequestV {
            method: HttpMethod::Post,
            url: base_url(ip),
            body: Some(JsonBodyV::CreateTable {
                name: t.name,
                attrs: t.attrs.map_values(|a: AttrV| (a.name, service_type_name(a.data_type))),
            }),
        },
        CommandV::DropTable(name) => HttpRequestV { method: HttpMethod::Delete, url: base_url(ip) + "/"@ + name, body: None },
        CommandV::ShowTables => HttpRequestV { method: HttpMethod::Get, url: base_url(ip), body: None },
        CommandV::Insert(row) => HttpRequestV {
            method: HttpMethod::Post,
            url: base_url(ip) + "/"@ + row.of + "/rows"@,
            body: Some(JsonBodyV::Fields(row.data.map_values(|d: DataV| (d.name, d.value)))),
        },
        CommandV::Select { table, .. } => HttpRequestV { method: HttpMethod::Get, url: base_url(ip) + "/"@ + table + "/rows"@, body: None },
        CommandV::Update { table, updates, conditions } => HttpRequestV {
            method: HttpMethod::Put,
            url: base_url(ip) + "/"@ + table + "/rows"@,
            body: Some(JsonBodyV::Update {
                updates: updates.map_values(|d: DataV| (d.name, d.value)),
                conditions: compare_members(conditions),
            }),
        },
        CommandV::Delete { table, conditions } => HttpRequestV {
            method: HttpMethod::Delete,
            url: base_url(ip) + "/"@ + table + "/rows"@,
            body: Some(JsonBodyV::Fields(compare_members(conditions))),
        },
    }
}

fn members_of_conditions(cs: &Vec<Condition>) -> (r: Vec<(String, Value)>)
    ensures
        fields_view(r@) == compare_members(conditions_view(cs@)),
{
    let ghost cv = conditions_view(cs@);
    let mut out: Vec<(String, Value)> = Vec::new();
    let mut i: usize = 0;
    while i < cs.len()
        invariant
            i <= cs@.len(),
            cv == conditions_view(cs@),
            fields_view(out@) == compare_members(cv.take(i as int)),
        decreases cs@.len() - i,
    {
        assert(cv.take(i + 1).drop_last() =~= cv.take(i as int));
        assert(cv.take(i + 1).last() == cs@[i as int]@);
        match &cs[i] {
            Condition::Compare { attr, value, .. } => {
                let ghost p = out@;
                out.push((attr.clone(), value.clone()));
                assert(fields_view(out@) =~= fields_view(p).push((attr@, value@)));
            },
            _ => {},
        }
        i = i + 1;
    }
    assert(cv.take(i as int) =~= cv);
    out
}

fn members_of_data(ds: &Vec<Data>) -> (r: Vec<(String, Value)>)
    ensures
        fields_view(r@) == data_view(ds@).map_values(|d: DataV| (d.name, d.value)),
{
    let mut out: Vec<(String, Value)> = Vec::new();
    let mut i: usize = 0;
    while i < ds.len()
        invariant
            i <= ds@.len(),
            fields_view(out@) =~= data_view(ds@).take(i as int).map_values(|d: DataV| (d.name, d.value)),
        decreases ds@.len() - i,
    {
        let ghost p = out@;
        out.push((ds[i].name.clone(), ds[i].value.clone()));
        assert(fields_view(out@) =~= fields_view(p).push((ds@[i as int].name@, ds@[i as int].value@)));
        assert(data_view(ds@).take(i + 1) =~= data_view(ds@).take(i as int).push(ds@[i as int]@));
        i = i + 1;
    }
    assert(data_view(ds@).take(i as int) =~= data_view(ds@));
    out
}

/// The request a job's command becomes, for the database service at `db_service_ip`.
pub fn job_request(cmd: &Command, db_service_ip: &str) -> (r: HttpRequest)
    ensures
        r@ == job_request_spec(cmd@, db_service_ip@),
{
    let base = cat3("http://", db_service_ip, "/tables");
    match cmd {
        Command::CreateTable(t) => {
            let mut attrs: Vec<(String, String)> = Vec::new();
            let mut i: usize = 0;
            while i < t.attrs.len()
                invariant
                    i <= t.attrs@.len(),
                    attrs@.map_values(|p: (String, String)| (p.0@, p.1@))
                        =~= t@.attrs.take(i as int).map_values(|a: AttrV| (a.name, service_type_name(a.data_type))),
                decreases t.attrs@.len() - i,
            {
                proof {
                    reveal_strlit("INT");
                    reveal_strlit("STRING");
                }
                let ghost p = attrs@;
                let tn = match t.attrs[i].data_type {
                    Type::Int => "INT".to_owned(),
                    Type::VarChar(_) => "STRING".to_owned(),
                };
                attrs.push((t.attrs[i].name.clone(), tn));
                assert(t@.attrs.take(i + 1) =~= t@.attrs.take(i as int).push(t@.attrs[i as int]));
                assert(attrs@.map_values(|p: (String, String)| (p.0@, p.1@))
                    =~= p.map_values(|p: (String, String)| (p.0@, p.1@)).push((t.attrs@[i as int].name@, service_type_name(t.attrs@[i as int].data_type))));
                i = i + 1;
            }
            assert(t@.attrs.take(i as int) =~= t@.attrs);
            HttpRequest { method: HttpMethod::Post, url: base, body: Some(JsonBody::CreateTable { name: t.name.clone(), attrs }) }
        },
        Command::DropTable(name) => HttpRequest { method: HttpMethod::Delete, url: cat3(base.as_str(), "/", name.as_str()), body: None },
        Command::ShowTables => HttpRequest { method: HttpMethod::Get, url: base, body: None },
        Command::Insert(row) => HttpRequest {
            method: HttpMethod::Post,
            url: cat4(base.as_str(), "/", row.of.as_str(), "/rows"),
            body: Some(JsonBody::Fields(members_of_data(&row.data))),
        },
        Command::Select { table, .. } => HttpRequest {
            method: HttpMethod::Get,
            url: cat4(base.as_str(), "/", table.as_str(), "/rows"),
            body: None,
        },
        Command::Update { table, updates, conditions } => HttpRequest {
            method: HttpMethod::Put,
            url: cat4(base.as_str(), "/", table.as_str(), "/rows"),
            body: Some(JsonBody::Update { updates: members_of_data(updates), conditions: members_of_conditions(conditions) }),
        },
        Command::Delete { table, conditions } => HttpRequest {
            method: HttpMethod::Delete,
            url: cat4(base.as_str(), "/", table.as_str(), "/rows"),
            body: Some(JsonBody::Fields(members_of_conditions(conditions))),
        },
    }
}

/// The reply that starts a job: `JobInit` with the job's id, under the
/// query's id, from the service.
pub fn job_init_message(query_id: String, job_id: String, service_ip: &str) -> (r: Message)
    ensures
        r@.id == query_id@,
        r@.msg_type == (MessageTypeV::JobInit { job_id: job_id@ }),
        r@.node_id == service_ip@,
        r@.command is None,
        r@.payload == Seq::<u8>::empty(),
{
    Message::new(query_id, MessageType::JobInit { job_id }, service_ip.to_owned())
}

/// The message that completes a job: `JobComplete` with the job's id,
/// carrying the database service's answer.
pub fn job_complete_message(job_id: String, response_text: &str) -> (r: Message)
    ensures
        r@.id == Seq::<char>::empty(),
        r@.msg_type == (MessageTypeV::JobComplete { job_id: job_id@ }),
        r@.node_id == Seq::<char>::empty(),
        r@.command is None,
        r@.payload == encode_utf8(response_text@),
{
    Message::new(String::new(), MessageType::JobComplete { job_id }, String::new()).with_payload(text_bytes(response_text))
}

/// The message a job sends the node's database service: the command to execute.
pub fn exec_request(cmd: Command) -> (r: Message)
    ensures
        r@.id == Seq::<char>::empty(),
        r@.msg_type is ExecCmd,
        r@.node_id == Seq::<char>::empty(),
        r@.command == Some(cmd@),
        r@.payload == Seq::<u8>::empty(),
{
    Message::new(String::new(), MessageType::ExecCmd, String::new()).with_command(cmd)
}

/// The number of worker threads: the requested number where the machine
/// has that many, else the error to print; the machine's number where none
/// was requested.
pub fn thread_count(requested: Option<usize>, available: usize) -> (r: Result<usize, String>)
    ensures
        match requested {
            None => r == Ok::<usize, String>(available),
            Some(t) => if t > available {
                r matches Err(e) && e@ == "[ERROR] Your machine only supports "@ + nat_digits(available as nat) + " threads."@
            } else {
                r == Ok::<usize, String>(t)
            },
        },
{
    match requested {
        None => Ok(available),
        Some(t) => {
            if t > available {
                let n = usize_to_string(available);
                Err(cat3("[ERROR] Your machine only supports ", n.as_str(), " threads."))
            } else {
                Ok(t)
            }
        },
    }
}

} // verus!

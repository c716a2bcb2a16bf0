//! The single-server front end: executing a command into a reply text,
//! answering query and heartbeat messages, and the client's ping.

use vstd::prelude::*;
use crate::command::{Command, CommandV};
use crate::engine::{engine_wf, insert_spec, Engine, EngineV};
use crate::executor::{command_aligned, command_is_aligned, execute, execute_spec, result_text};
use crate::parser::{cmd_result_view, parse_cmd, parse_outcome};
use crate::command::cmd_error_text;
use crate::protocol_module::{Message, MessageType, MessageTypeV, MessageV};
use crate::sql::sql_parse;
use crate::text::{cat2, cat3, utf8_string};
use vstd::utf8::{decode_utf8, valid_utf8};

verus! {

/// The columns a `SELECT *` names on this server.
pub open spec fn star_columns() -> Seq<Seq<char>> {
    seq!["id"@, "name"@, "age"@]
}

/// The columns a select names: exactly `*` stands for the star columns.
pub open spec fn select_columns(attrs: Seq<Seq<char>>) -> Seq<Seq<char>> {
    if attrs == seq!["*"@] { star_columns() } else { attrs }
}

/// The new state and the reply text of executing a command.
pub open spec fn server_execute_spec(e: EngineV, c: CommandV) -> (EngineV, Seq<char>) {
    match c {
        CommandV::Insert(row) => {
            let (e2, r) = insert_spec(e, row);
            (e2, match r {
                Ok(_) => "OK: 1 row inserted into '"@ + row.of + "'"@,
                Err(m) => "Error: "@ + m,
            })
        },
        CommandV::Select { table, attrs, conditions } => {
            let c2 = CommandV::Select { table, attrs: select_columns(attrs), conditions };
            (execute_spec(e, c2).0, result_text(execute_spec(e, c2).1))
        },
        _ => (execute_spec(e, c).0, result_text(execute_spec(e, c).1)),
    }
}

fn star_only(attrs: &Vec<String>) -> (r: bool)
    ensures
        r == (crate::command::strings_view(attrs@) == seq!["*"@]),
{
    let ghost sv = crate::command::strings_view(attrs@);
    proof {
        if sv == seq!["*"@] {
            assert(sv.len() == 1);
            assert(sv[0] == attrs@[0]@);
        }
    }
    if attrs.len() == 1 && crate::text::str_eq(attrs[0].as_str(), "*") {
        assert(sv =~= seq!["*"@]);
        true
    } else {
        false
    }
}

/// Executes a command and renders the reply: a confirmation, the rows, or
/// `Error: ` and the reason.
pub fn server_execute(engine: &mut Engine, cmd: Command) -> (r: String)
    requires
        engine_wf(old(engine)@),
        command_aligned(old(engine)@, cmd@),
    ensures
        engine_wf(final(engine)@),
        final(engine)@ == server_execute_spec(old(engine)@, cmd@).0,
        r@ == server_execute_spec(old(engine)@, cmd@).1,
{
    match cmd {
        Command::Insert(e) => match engine.insert(&e) {
            Ok(_) => cat3("OK: 1 row inserted into '", e.of.as_str(), "'"),
            Err(m) => cat2("Error: ", m.as_str()),
        },
        Command::Select { table, attrs, conditions } => {
            let ghost cv = cmd@;
            let cols = if star_only(&attrs) {
                let mut v: Vec<String> = Vec::new();
                v.push("id".to_owned());
                v.push("name".to_owned());
                v.push("age".to_owned());
                assert(crate::command::strings_view(v@) =~= star_columns());
                v
            } else {
                attrs
            };
            let c2 = Command::Select { table, attrs: cols, conditions };
            execute(engine, c2).to_string()
        },
        other => execute(engine, other).to_string(),
    }
}

/// The server: the address it listens on.
pub struct Server {
    pub addr: String,
}

impl Server {
    /// A server for `addr`.
    pub fn new(addr: &str) -> (r: Server)
        ensures
            r.addr@ == addr@,
    {
        Server { addr: addr.to_owned() }
    }
}

/// Whether a message is a heartbeat that carries `PING`.
pub open spec fn is_ping(m: MessageV) -> bool {
    m.msg_type is Heartbeat && m.payload == "PING"@.map_values(|c: char| c as u8)
}

/// Whether a message is a heartbeat that carries `PONG`.
pub open spec fn is_pong_spec(m: MessageV) -> bool {
    m.msg_type is Heartbeat && m.payload == "PONG"@.map_values(|c: char| c as u8)
}

fn ascii_bytes(s: &str) -> (r: Vec<u8>)
    requires
        s.is_ascii(),
    ensures
        r@ == s@.map_values(|c: char| c as u8),
{
    let mut out: Vec<u8> = Vec::new();
    let n = s.unicode_len();
    let mut i: usize = 0;
    while i < n
        invariant
            n == s@.len(),
            i <= n,
            s.is_ascii(),
            out@ =~= s@.take(i as int).map_values(|c: char| c as u8),
        decreases n - i,
    {
        let c = s.get_char(i);
        out.push(c as u8);
        i = i + 1;
    }
    assert(s@.take(i as int) =~= s@);
    out
}

fn bytes_equal(a: &Vec<u8>, b: &Vec<u8>) -> (r: bool)
    ensures
        r == (a@ == b@),
{
    if a.len() != b.len() {
        return false;
    }
    let mut i: usize = 0;
    while i < a.len()
        invariant
            i <= a@.len(),
            a@.len() == b@.len(),
            forall|j: int| 0 <= j < i ==> a@[j] == b@[j],
        decreases a@.len() - i,
    {
        if a[i] != b[i] {
            return false;
        }
        i = i + 1;
    }
    assert(a@ =~= b@);
    true
}

fn payload_is(m: &Message, word: &str) -> (r: bool)
    requires
        word.is_ascii(),
    ensures
        r == (m@.payload == word@.map_values(|c: char| c as u8)),
{
    let w = ascii_bytes(word);
    bytes_equal(&m.payload, &w)
}

/// The reply to a message: a `PONG` heartbeat, with the same id, from
/// `server`, to a `PING` heartbeat; nothing to anything else.
pub fn answer_heartbeat(msg: &Message) -> (r: Option<Message>)
    ensures
        match r {
            Some(m) => is_ping(msg@) && m@.id == msg@.id && m@.msg_type is Heartbeat
                && m@.payload == "PONG"@.map_values(|c: char| c as u8) && m@.node_id == "server"@ && m@.command is None,
            None => !is_ping(msg@),
        },
{
    proof {
        reveal_strlit("PING");
        reveal_strlit("PONG");
    }
    let heartbeat = match msg.msg_type {
        MessageType::Heartbeat => true,
        _ => false,
    };
    if heartbeat && payload_is(msg, "PING") {
        let pong = ascii_bytes("PONG");
        Some(Message::new(msg.id, MessageType::Heartbeat, "server".to_owned()).with_payload(pong))
    } else {
        None
    }
}

/// The heartbeat a client sends to ping: `PING` under the given id.
pub fn ping_message(id: u64, node_id: &str) -> (r: Message)
    ensures
        is_ping(r@),
        r@.id == id,
        r@.node_id == node_id@,
        r@.command is None,
{
    proof { reveal_strlit("PING"); }
    let ping = ascii_bytes("PING");
    Message::new(id, MessageType::Heartbeat, node_id.to_owned()).with_payload(ping)
}

/// Whether a reply to a ping is a `PONG` heartbeat.
pub fn is_pong(msg: &Message) -> (r: bool)
    ensures
        r == is_pong_spec(msg@),
{
    proof { reveal_strlit("PONG"); }
    match msg.msg_type {
        MessageType::Heartbeat => payload_is(msg, "PONG"),
        _ => false,
    }
}

/// The reply text to a SQL text, and the engine after it: the command's
/// reply, or `Parse error: ` and the parse error.
pub open spec fn query_reply(e: EngineV, sql: Seq<char>) -> (EngineV, Seq<char>) {
    match parse_outcome(sql_parse(sql)) {
        Ok(c) => server_execute_spec(e, c),
        Err(err) => (e, "Parse error: "@ + cmd_error_text(err)),
    }
}

/// What serving a message came to.
pub enum Served<M> {
    /// The message is no query; it is ignored.
    Ignored,
    /// The reply to send back.
    Reply(M),
    /// The query reads a table whose columns have different lengths, so its
    /// rows cannot be assembled; nothing was executed.
    Unaligned,
}

/// Serves a query message of the single-server protocol: its payload is SQL
/// text, which is parsed and executed; the reply is a `Response` with the same
/// id from `node`, holding the reply text, or an `Error` holding
/// `invalid UTF-8 payload` when the payload is no UTF-8.
pub fn serve_query(engine: &mut Engine, msg: &Message, node: &str) -> (r: Served<Message>)
    requires
        engine_wf(old(engine)@),
    ensures
        engine_wf(final(engine)@),
        !(msg@.msg_type is Query) ==> r is Ignored && final(engine)@ == old(engine)@,
        msg@.msg_type is Query && !valid_utf8(msg@.payload) ==> final(engine)@ == old(engine)@ && match r {
            Served::Reply(m) => m@.id == msg@.id && m@.msg_type is Error && m@.node_id == node@
                && m@.payload == vstd::utf8::encode_utf8("invalid UTF-8 payload"@),
            _ => false,
        },
        msg@.msg_type is Query && valid_utf8(msg@.payload) ==> {
            let sql = decode_utf8(msg@.payload);
            match parse_outcome(sql_parse(sql)) {
                Ok(c) if !command_aligned(old(engine)@, c) => r is Unaligned && final(engine)@ == old(engine)@,
                _ => final(engine)@ == query_reply(old(engine)@, sql).0 && match r {
                    Served::Reply(m) => m@.id == msg@.id && m@.msg_type is Response && m@.node_id == node@
                        && m@.payload == vstd::utf8::encode_utf8(query_reply(old(engine)@, sql).1),
                    _ => false,
                },
            }
        },
{
    match msg.msg_type {
        MessageType::Query => {},
        _ => return Served::Ignored,
    }
    let sql = match utf8_string(msg.payload.clone()) {
        Some(s) => s,
        None => {
            let err = Message::new(msg.id, MessageType::Error, node.to_owned())
                .with_payload(crate::text::text_bytes("invalid UTF-8 payload"));
            return Served::Reply(err);
        },
    };
    let text = match parse_cmd(sql.as_str()) {
        Ok(cmd) => {
            if !command_is_aligned(engine, &cmd) {
                return Served::Unaligned;
            }
            server_execute(engine, cmd)
        },
        Err(e) => {
            let m = e.to_string();
            cat2("Parse error: ", m.as_str())
        },
    };
    let reply = Message::new(msg.id, MessageType::Response, node.to_owned())
        .with_payload(crate::text::text_bytes(text.as_str()));
    Served::Reply(reply)
}

/// The message the leader replicates a query with: a `Sync` from `leader`
/// carrying the query text.
pub fn sync_message(id: u64, sql: &str) -> (r: Message)
    ensures
        r@.id == id,
        r@.msg_type is Sync,
        r@.node_id == "leader"@,
        r@.payload == vstd::utf8::encode_utf8(sql@),
        r@.command is None,
{
    Message::new(id, MessageType::Sync, "leader".to_owned()).with_payload(crate::text::text_bytes(sql))
}

/// The log line of applying a replicated query, and the engine after it.
pub open spec fn sync_outcome(e: EngineV, payload: Seq<u8>) -> (EngineV, Seq<char>) {
    if !valid_utf8(payload) {
        (e, "invalid UTF-8 payload"@)
    } else {
        let sql = decode_utf8(payload);
        match parse_outcome(sql_parse(sql)) {
            Ok(c) => (server_execute_spec(e, c).0, "sync result: "@ + server_execute_spec(e, c).1),
            Err(err) => (e, "parse error: "@ + cmd_error_text(err)),
        }
    }
}

/// A follower applies a `Sync` message from the leader: it executes the query
/// it carries and gives the line to log.
pub fn apply_sync(engine: &mut Engine, msg: &Message) -> (r: Served<String>)
    requires
        engine_wf(old(engine)@),
    ensures
        engine_wf(final(engine)@),
        !(msg@.msg_type is Sync) ==> r is Ignored && final(engine)@ == old(engine)@,
        msg@.msg_type is Sync ==> match r {
            Served::Reply(line) => final(engine)@ == sync_outcome(old(engine)@, msg@.payload).0
                && line@ == sync_outcome(old(engine)@, msg@.payload).1,
            Served::Unaligned => final(engine)@ == old(engine)@ && valid_utf8(msg@.payload)
                && (parse_outcome(sql_parse(decode_utf8(msg@.payload))) matches Ok(c) && !command_aligned(old(engine)@, c)),
            Served::Ignored => false,
        },
{
    match msg.msg_type {
        MessageType::Sync => {},
        _ => return Served::Ignored,
    }
    let sql = match utf8_string(msg.payload.clone()) {
        Some(s) => s,
        None => return Served::Reply("invalid UTF-8 payload".to_owned()),
    };
    match parse_cmd(sql.as_str()) {
        Ok(cmd) => {
            if !command_is_aligned(engine, &cmd) {
                return Served::Unaligned;
            }
            let text = server_execute(engine, cmd);
            Served::Reply(cat2("sync result: ", text.as_str()))
        },
        Err(e) => {
            let m = e.to_string();
            Served::Reply(cat2("parse error: ", m.as_str()))
        },
    }
}

} // verus!

//! The messages that gateway, nodes and services exchange, and the framing
//! that puts them on a stream: a 4-byte big-endian length, then the body.

use vstd::prelude::*;
use crate::command::{Command, CommandV};
use crate::command::strings_view;
use crate::engine::entities_view;
use crate::types::{Entity, EntityV};

verus! {

/// The data of a successful response.
#[derive(Debug)]
pub enum ResponseData {
    Rows(Vec<Entity>),
    Tables(Vec<String>),
}

pub enum ResponseDataV {
    Rows(Seq<EntityV>),
    Tables(Seq<Seq<char>>),
}

impl View for ResponseData {
    type V = ResponseDataV;

    open spec fn view(&self) -> ResponseDataV {
        match self {
            ResponseData::Rows(r) => ResponseDataV::Rows(entities_view(r@)),
            ResponseData::Tables(t) => ResponseDataV::Tables(strings_view(t@)),
        }
    }
}

/// The kind of a message.
#[derive(Debug)]
pub enum MessageType {
    /// A query to execute, as SQL text in the payload.
    Query,
    /// To the leader: lead the command among these followers.
    Lead { followers: Vec<String> },
    /// A parsed command to execute.
    ExecCmd,
    /// The reply to a query.
    Response { sucess: bool, message: Option<String>, data: Option<ResponseData> },
    /// A node registers itself.
    Register,
    /// An error notification.
    Error,
    /// A job was started.
    JobInit { job_id: String },
    /// A job is done.
    JobComplete { job_id: String },
}

pub enum MessageTypeV {
    Query,
    Lead { followers: Seq<Seq<char>> },
    ExecCmd,
    Response { sucess: bool, message: Option<Seq<char>>, data: Option<ResponseDataV> },
    Register,
    Error,
    JobInit { job_id: Seq<char> },
    JobComplete { job_id: Seq<char> },
}

pub open spec fn opt_text(s: Option<String>) -> Option<Seq<char>> {
    match s {
        Some(x) => Some(x@),
        None => None,
    }
}

impl View for MessageType {
    type V = MessageTypeV;

    open spec fn view(&self) -> MessageTypeV {
        match self {
            MessageType::Query => MessageTypeV::Query,
            MessageType::Lead { followers } => MessageTypeV::Lead { followers: strings_view(followers@) },
            MessageType::ExecCmd => MessageTypeV::ExecCmd,
            MessageType::Response { sucess, message, data } => MessageTypeV::Response {
                sucess: *sucess,
                message: opt_text(*message),
                data: match data {
                    Some(d) => Some(d@),
                    None => None,
                },
            },
            MessageType::Register => MessageTypeV::Register,
            MessageType::Error => MessageTypeV::Error,
            MessageType::JobInit { job_id } => MessageTypeV::JobInit { job_id: job_id@ },
            MessageType::JobComplete { job_id } => MessageTypeV::JobComplete { job_id: job_id@ },
        }
    }
}

/// A message: its id, kind, an optional command, a payload, the second it was
/// made at, and the node that made it.
#[derive(Debug)]
pub struct Message {
    pub id: String,
    pub msg_type: MessageType,
    pub command: Option<Command>,
    pub payload: Vec<u8>,
    pub timestamp: u64,
    pub node_id: String,
}

pub struct MessageV {
    pub id: Seq<char>,
    pub msg_type: MessageTypeV,
    pub command: Option<CommandV>,
    pub payload: Seq<u8>,
    pub timestamp: u64,
    pub node_id: Seq<char>,
}

impl View for Message {
    type V = MessageV;

    open spec fn view(&self) -> MessageV {
        MessageV {
            id: self.id@,
            msg_type: self.msg_type@,
            command: match self.command {
                Some(c) => Some(c@),
                None => None,
            },
            payload: self.payload@,
            timestamp: self.timestamp,
            node_id: self.node_id@,
        }
    }
}

/// The whole seconds since the Unix epoch, read with
/// `std::time::SystemTime::now().duration_since(UNIX_EPOCH)`; `None` where the
/// clock stands before the epoch. Nothing is claimed of the value: it is the clock's.
#[verifier::external_body]
pub(crate) fn unix_time_secs() -> (r: Option<u64>) {
    std::time::SystemTime::now().duration_since(std::time::UNIX_EPOCH).ok().map(|d| d.as_secs())
}

impl Message {
    /// A message with no command and an empty payload, stamped with the
    /// current time in seconds (0 where the clock stands before the epoch):
    /// `stamped` with the clock's reading.
    pub fn new(id: String, msg_type: MessageType, node_id: String) -> (r: Message)
        ensures
            r@.id == id@,
            r@.msg_type == msg_type@,
            r@.command is None,
            r@.payload == Seq::<u8>::empty(),
            r@.node_id == node_id@,
    {
        let clock = unix_time_secs();
        Message::stamped(id, msg_type, node_id, clock)
    }

    /// A message with no command and an empty payload, stamped with the clock
    /// reading `clock` in whole seconds since the Unix epoch, or 0 where there
    /// is none (the clock stands before the epoch).
    pub fn stamped(id: String, msg_type: MessageType, node_id: String, clock: Option<u64>) -> (r: Message)
        ensures
            r@.id == id@,
            r@.msg_type == msg_type@,
            r@.command is None,
            r@.payload == Seq::<u8>::empty(),
            r@.node_id == node_id@,
            r@.timestamp == (match clock {
                Some(t) => t,
                None => 0u64,
            }),
    {
        let timestamp = match clock {
            Some(t) => t,
            None => 0,
        };
        Message { id, msg_type, command: None, payload: Vec::new(), timestamp, node_id }
    }

    /// The message with `command` attached.
    pub fn with_command(self, command: Command) -> (r: Message)
        ensures
            r@ == (MessageV { command: Some(command@), ..self@ }),
    {
        let mut m = self;
        m.command = Some(command);
        m
    }

    /// The message with `payload` as its payload.
    pub fn with_payload(self, payload: Vec<u8>) -> (r: Message)
        ensures
            r@ == (MessageV { payload: payload@, ..self@ }),
    {
        let mut m = self;
        m.payload = payload;
        m
    }
}

/// The four big-endian bytes of `x`.
pub open spec fn be_bytes(x: u32) -> Seq<u8> {
    seq![(x >> 24u32) as u8, (x >> 16u32) as u8, (x >> 8u32) as u8, x as u8]
}

/// The number four big-endian bytes stand for.
pub open spec fn be_value(b0: u8, b1: u8, b2: u8, b3: u8) -> u32 {
    ((b0 as u32) << 24u32) | ((b1 as u32) << 16u32) | ((b2 as u32) << 8u32) | (b3 as u32)
}

/// The frame of a body: its length as four big-endian bytes (the length is
/// taken modulo 2^32, as `as u32` does), then the body.
pub open spec fn frame(body: Seq<u8>) -> Seq<u8> {
    be_bytes(body.len() as u32) + body
}

/// The frame of `body`.
pub fn encode_frame(body: &[u8]) -> (r: Vec<u8>)
    ensures
        r@ == frame(body@),
{
    let n = body.len() as u32;
    let mut out: Vec<u8> = Vec::new();
    out.push((n >> 24u32) as u8);
    out.push((n >> 16u32) as u8);
    out.push((n >> 8u32) as u8);
    out.push(n as u8);
    let ghost head = out@;
    assert(head =~= be_bytes(n));
    let mut i: usize = 0;
    while i < body.len()
        invariant
            i <= body@.len(),
            head == be_bytes(n),
            out@ =~= head + body@.take(i as int),
        decreases body@.len() - i,
    {
        out.push(body[i]);
        i = i + 1;
    }
    assert(body@.take(i as int) =~= body@);
    out
}

/// The body length a frame header announces.
pub fn frame_length(header: &[u8; 4]) -> (r: usize)
    ensures
        r == be_value(header@[0], header@[1], header@[2], header@[3]) as usize,
{
    let v: u32 = ((header[0] as u32) << 24u32) | ((header[1] as u32) << 16u32) | ((header[2] as u32) << 8u32)
        | (header[3] as u32);
    v as usize
}

/// Splits the first frame off `buf`: its body and the number of bytes it
/// takes, or `None` while `buf` does not hold a whole frame.
pub fn decode_frame(buf: &[u8]) -> (r: Option<(Vec<u8>, usize)>)
    ensures
        match r {
            Some((body, used)) => buf@.len() >= 4
                && used == 4 + be_value(buf@[0], buf@[1], buf@[2], buf@[3])
                && used <= buf@.len()
                && body@ == buf@.subrange(4, used as int),
            None => buf@.len() < 4 || buf@.len() < 4 + be_value(buf@[0], buf@[1], buf@[2], buf@[3]),
        },
{
    if buf.len() < 4 {
        return None;
    }
    let header: [u8; 4] = [buf[0], buf[1], buf[2], buf[3]];
    let len = frame_length(&header);
    if buf.len() - 4 < len {
        return None;
    }
    let used = 4 + len;
    let mut body: Vec<u8> = Vec::new();
    let mut i: usize = 4;
    while i < used
        invariant
            4 <= i <= used,
            used <= buf@.len(),
            body@ =~= buf@.subrange(4, i as int),
        decreases used - i,
    {
        body.push(buf[i]);
        i = i + 1;
    }
    Some((body, used))
}

/// The header of a frame announces the length of its body, and the body
/// follows it unchanged: a frame reads back as what was written.
pub proof fn law_frame_roundtrip(body: Seq<u8>)
    requires
        body.len() <= u32::MAX,
    ensures
        frame(body).len() == 4 + body.len(),
        be_value(frame(body)[0], frame(body)[1], frame(body)[2], frame(body)[3]) == body.len(),
        frame(body).subrange(4, 4 + body.len() as int) == body,
{
    let n = body.len() as u32;
    let f = frame(body);
    assert(f[0] == (n >> 24u32) as u8 && f[1] == (n >> 16u32) as u8 && f[2] == (n >> 8u32) as u8 && f[3] == n as u8);
    assert(be_value((n >> 24u32) as u8, (n >> 16u32) as u8, (n >> 8u32) as u8, n as u8) == n) by (bit_vector);
    assert(f.subrange(4, 4 + body.len() as int) =~= body);
}

} // verus!

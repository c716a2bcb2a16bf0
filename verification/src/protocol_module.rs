//! The messages of the single-server protocol: numbered messages that carry
//! queries, responses, heartbeats and replication.

use vstd::prelude::*;

verus! {

/// The kind of a message.
#[derive(Debug)]
pub enum MessageType {
    Query,
    Response,
    Heartbeat,
    Sync,
    Error,
    JobInit { job_id: String },
    JobComplete { job_id: String },
}

pub enum MessageTypeV {
    Query,
    Response,
    Heartbeat,
    Sync,
    Error,
    JobInit { job_id: Seq<char> },
    JobComplete { job_id: Seq<char> },
}

impl View for MessageType {
    type V = MessageTypeV;

    open spec fn view(&self) -> MessageTypeV {
        match self {
            MessageType::Query => MessageTypeV::Query,
            MessageType::Response => MessageTypeV::Response,
            MessageType::Heartbeat => MessageTypeV::Heartbeat,
            MessageType::Sync => MessageTypeV::Sync,
            MessageType::Error => MessageTypeV::Error,
            MessageType::JobInit { job_id } => MessageTypeV::JobInit { job_id: job_id@ },
            MessageType::JobComplete { job_id } => MessageTypeV::JobComplete { job_id: job_id@ },
        }
    }
}

/// A storage command carried by a message.
#[derive(Debug)]
pub enum Command {
    Select(String),
    Insert { table: String, data: Vec<u8> },
    Update { table: String, data: Vec<u8> },
    Delete(String),
    Commit,
    Rollback,
}

pub enum CommandV {
    Select(Seq<char>),
    Insert { table: Seq<char>, data: Seq<u8> },
    Update { table: Seq<char>, data: Seq<u8> },
    Delete(Seq<char>),
    Commit,
    Rollback,
}

impl View for Command {
    type V = CommandV;

    open spec fn view(&self) -> CommandV {
        match self {
            Command::Select(t) => CommandV::Select(t@),
            Command::Insert { table, data } => CommandV::Insert { table: table@, data: data@ },
            Command::Update { table, data } => CommandV::Update { table: table@, data: data@ },
            Command::Delete(t) => CommandV::Delete(t@),
            Command::Commit => CommandV::Commit,
            Command::Rollback => CommandV::Rollback,
        }
    }
}

/// A numbered message.
#[derive(Debug)]
pub struct Message {
    pub id: u64,
    pub msg_type: MessageType,
    pub command: Option<Command>,
    pub payload: Vec<u8>,
    pub timestamp: u64,
    pub node_id: String,
}

pub struct MessageV {
    pub id: u64,
    pub msg_type: MessageTypeV,
    pub command: Option<CommandV>,
    pub payload: Seq<u8>,
    pub timestamp: u64,
    pub node_id: Seq<char>,
}

impl View for Message {
    type V = MessageV;

    open spec fn view(&self) -> MessageV {
        MessageV {
            id: self.id,
            msg_type: self.msg_type@,
            command: match self.command {
                Some(c) => Some(c@),
                None => None,
            },
            payload: self.payload@,
            timestamp: self.timestamp,
            node_id: self.node_id@,
        }
    }
}

impl Message {
    /// A message with no command and an empty payload, stamped with the
    /// current time in seconds (0 where the clock stands before the epoch):
    /// `stamped` with the clock's reading.
    pub fn new(id: u64, msg_type: MessageType, node_id: String) -> (r: Message)
        ensures
            r@.id == id,
            r@.msg_type == msg_type@,
            r@.command is None,
            r@.payload == Seq::<u8>::empty(),
            r@.node_id == node_id@,
    {
        let clock = crate::protocol::unix_time_secs();
        Message::stamped(id, msg_type, node_id, clock)
    }

    /// A message with no command and an empty payload, stamped with the clock
    /// reading `clock` in whole seconds since the Unix epoch, or 0 where there
    /// is none (the clock stands before the epoch).
    pub fn stamped(id: u64, msg_type: MessageType, node_id: String, clock: Option<u64>) -> (r: Message)
        ensures
            r@.id == id,
            r@.msg_type == msg_type@,
            r@.command is None,
            r@.payload == Seq::<u8>::empty(),
            r@.node_id == node_id@,
            r@.timestamp == (match clock {
                Some(t) => t,
                None => 0u64,
            }),
    {
        let timestamp = match clock {
            Some(t) => t,
            None => 0,
        };
        Message { id, msg_type, command: None, payload: Vec::new(), timestamp, node_id }
    }

    /// The message with `command` attached.
    pub fn with_command(self, command: Command) -> (r: Message)
        ensures
            r@ == (MessageV { command: Some(command@), ..self@ }),
    {
        let mut m = self;
        m.command = Some(command);
        m
    }

    /// The message with `payload` as its payload.
    pub fn with_payload(self, payload: Vec<u8>) -> (r: Message)
        ensures
            r@ == (MessageV { payload: payload@, ..self@ }),
    {
        let mut m = self;
        m.payload = payload;
        m
    }

    /// Whether the message is a query.
    pub fn is_query(&self) -> (r: bool)
        ensures
            r == (self@.msg_type is Query),
    {
        match self.msg_type {
            MessageType::Query => true,
            _ => false,
        }
    }

    /// Whether the message is a response.
    pub fn is_response(&self) -> (r: bool)
        ensures
            r == (self@.msg_type is Response),
    {
        match self.msg_type {
            MessageType::Response => true,
            _ => false,
        }
    }
}

/// The lowercase hexadecimal digit for `d`, for `d < 16`.
pub open spec fn hex_digit(d: nat) -> char {
    if d == 0 { '0' } else if d == 1 { '1' } else if d == 2 { '2' } else if d == 3 { '3' } else if d == 4 { '4' } else if d == 5 { '5' } else if d == 6 { '6' } else if d == 7 { '7' } else if d == 8 { '8' } else if d == 9 { '9' } else if d == 10 { 'a' } else if d == 11 { 'b' } else if d == 12 { 'c' } else if d == 13 { 'd' } else if d == 14 { 'e' } else { 'f' }
}

/// Bytes written as two lowercase hexadecimal digits and a space each.
pub open spec fn hex_text(bytes: Seq<u8>) -> Seq<char>
    decreases bytes.len(),
{
    if bytes.len() == 0 {
        Seq::empty()
    } else {
        hex_text(bytes.drop_last()) + seq![hex_digit((bytes.last() / 16) as nat), hex_digit((bytes.last() % 16) as nat), ' ']
    }
}

fn hex_str(d: u8) -> (r: &'static str)
    requires
        d < 16,
    ensures
        r@ == seq![hex_digit(d as nat)],
{
    proof {
        reveal_strlit("0");
        reveal_strlit("1");
        reveal_strlit("2");
        reveal_strlit("3");
        reveal_strlit("4");
        reveal_strlit("5");
        reveal_strlit("6");
        reveal_strlit("7");
        reveal_strlit("8");
        reveal_strlit("9");
        reveal_strlit("a");
        reveal_strlit("b");
        reveal_strlit("c");
        reveal_strlit("d");
        reveal_strlit("e");
        reveal_strlit("f");
    }
    if d == 0 { "0" }
    else if d == 1 { "1" }
    else if d == 2 { "2" }
    else if d == 3 { "3" }
    else if d == 4 { "4" }
    else if d == 5 { "5" }
    else if d == 6 { "6" }
    else if d == 7 { "7" }
    else if d == 8 { "8" }
    else if d == 9 { "9" }
    else if d == 10 { "a" }
    else if d == 11 { "b" }
    else if d == 12 { "c" }
    else if d == 13 { "d" }
    else if d == 14 { "e" }
    else { "f" }
}

/// The bytes as a hexadecimal dump: two lowercase digits and a space per byte.
pub fn hex_dump(bytes: &[u8]) -> (r: String)
    ensures
        r@ == hex_text(bytes@),
{
    let mut out = String::new();
    let mut i: usize = 0;
    while i < bytes.len()
        invariant
            i <= bytes@.len(),
            out@ == hex_text(bytes@.take(i as int)),
        decreases bytes@.len() - i,
    {
        let b = bytes[i];
        out.append(hex_str(b / 16));
        out.append(hex_str(b % 16));
        out.append(" ");
        proof { reveal_strlit(" "); }
        assert(bytes@.take(i + 1).drop_last() =~= bytes@.take(i as int));
        assert(bytes@.take(i + 1).last() == b);
        i = i + 1;
    }
    assert(bytes@.take(i as int) =~= bytes@);
    out
}

/// Turns messages into bytes and back, for the framed stream.
pub trait Serializer {
    fn serialize(&self, message: &Message) -> Result<Vec<u8>, String>;

    fn deserialize(&self, data: &[u8]) -> Result<Message, String>;
}

} // verus!

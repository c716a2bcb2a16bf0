//! The node's database service: it executes the commands a job sends and
//! answers with a response message.

use vstd::prelude::*;
use crate::command::{strings_view, Command, CommandV};
use crate::engine::{
    create_spec, delete_spec, drop_spec, engine_wf, entities_view, insert_spec, select_spec, strs_view, update_spec,
    Engine, EngineV,
};
use crate::executor::{command_aligned, command_is_aligned};
use crate::protocol::{Message, MessageType, MessageTypeV, MessageV, ResponseData, ResponseDataV};
use crate::text::{cat2, cat3, nat_digits, usize_to_string};
use crate::types::{Entity, EntityV, TableV};

verus! {

/// What executing a command came to.
#[derive(Debug)]
pub enum ExecuteResult {
    SuccessMsg(String),
    ErrorMsg(String),
    Rows(Vec<Entity>),
    Tables(Vec<String>),
}

pub enum ExecuteResultV {
    SuccessMsg(Seq<char>),
    ErrorMsg(Seq<char>),
    Rows(Seq<EntityV>),
    Tables(Seq<Seq<char>>),
}

impl View for ExecuteResult {
    type V = ExecuteResultV;

    open spec fn view(&self) -> ExecuteResultV {
        match self {
            ExecuteResult::SuccessMsg(s) => ExecuteResultV::SuccessMsg(s@),
            ExecuteResult::ErrorMsg(s) => ExecuteResultV::ErrorMsg(s@),
            ExecuteResult::Rows(r) => ExecuteResultV::Rows(entities_view(r@)),
            ExecuteResult::Tables(t) => ExecuteResultV::Tables(strings_view(t@)),
        }
    }
}

/// The engine after a command and what it came to.
pub open spec fn handle_spec(e: EngineV, c: CommandV) -> (EngineV, ExecuteResultV) {
    match c {
        CommandV::CreateTable(t) => {
            let (e2, r) = create_spec(e, t);
            (e2, match r {
                Ok(_) => ExecuteResultV::SuccessMsg("Table '"@ + t.name + "' created"@),
                Err(m) => ExecuteResultV::ErrorMsg(m),
            })
        },
        CommandV::DropTable(name) => {
            let (e2, r) = drop_spec(e, name);
            (e2, match r {
                Ok(_) => ExecuteResultV::SuccessMsg("Table '"@ + name + "' dropped"@),
                Err(m) => ExecuteResultV::ErrorMsg(m),
            })
        },
        CommandV::Insert(row) => {
            let (e2, r) = insert_spec(e, row);
            (e2, match r {
                Ok(m) => ExecuteResultV::SuccessMsg(m),
                Err(m) => ExecuteResultV::ErrorMsg(m),
            })
        },
        CommandV::Select { table, attrs, conditions } => (e, match select_spec(e, table, attrs, conditions) {
            Ok(rows) => ExecuteResultV::Rows(rows),
            Err(m) => ExecuteResultV::ErrorMsg(m),
        }),
        CommandV::Update { table, updates, conditions } => {
            let (e2, r) = update_spec(e, table, updates, conditions);
            (e2, match r {
                Ok(n) => ExecuteResultV::SuccessMsg("Updated Rows: "@ + nat_digits(n)),
                Err(m) => ExecuteResultV::ErrorMsg(m),
            })
        },
        CommandV::Delete { table, conditions } => {
            let (e2, r) = delete_spec(e, table, conditions);
            (e2, match r {
                Ok(n) => ExecuteResultV::SuccessMsg("Deleted Rows: "@ + nat_digits(n)),
                Err(m) => ExecuteResultV::ErrorMsg(m),
            })
        },
        CommandV::ShowTables => (e, if e.tables.len() == 0 {
            ExecuteResultV::ErrorMsg("No tables exist"@)
        } else {
            ExecuteResultV::Tables(e.tables.map_values(|t: TableV| t.name))
        }),
    }
}

/// Executes a command against the engine.
pub fn handle_command(engine: &mut Engine, cmd: Command) -> (r: ExecuteResult)
    requires
        engine_wf(old(engine)@),
        command_aligned(old(engine)@, cmd@),
    ensures
        engine_wf(final(engine)@),
        final(engine)@ == handle_spec(old(engine)@, cmd@).0,
        r@ == handle_spec(old(engine)@, cmd@).1,
{
    let ghost cv = cmd@;
    match cmd {
        Command::CreateTable(t) => match engine.create_table(&t) {
            Ok(_) => ExecuteResult::SuccessMsg(cat3("Table '", t.name.as_str(), "' created")),
            Err(e) => ExecuteResult::ErrorMsg(e),
        },
        Command::DropTable(name) => match engine.drop_table(name.as_str()) {
            Ok(_) => ExecuteResult::SuccessMsg(cat3("Table '", name.as_str(), "' dropped")),
            Err(e) => ExecuteResult::ErrorMsg(e),
        },
        Command::Insert(row) => match engine.insert(&row) {
            Ok(m) => ExecuteResult::SuccessMsg(m),
            Err(e) => ExecuteResult::ErrorMsg(e),
        },
        Command::Select { table, attrs, conditions } => {
            let mut refs: Vec<&str> = Vec::new();
            let mut i: usize = 0;
            while i < attrs.len()
                invariant
                    i <= attrs@.len(),
                    strs_view(refs@) =~= strings_view(attrs@).take(i as int),
                decreases attrs@.len() - i,
            {
                let ghost p = refs@;
                refs.push(attrs[i].as_str());
                assert(strs_view(refs@) =~= strs_view(p).push(attrs@[i as int]@));
                i = i + 1;
            }
            assert(strings_view(attrs@).take(i as int) =~= strings_view(attrs@));
            match engine.select(table.as_str(), refs, conditions) {
                Ok(rows) => ExecuteResult::Rows(rows),
                Err(e) => ExecuteResult::ErrorMsg(e),
            }
        },
        Command::Update { table, updates, conditions } => {
            assert(cv == CommandV::Update { table: table@, updates: crate::engine::data_view(updates@), conditions: crate::engine::conditions_view(conditions@) });
            match engine.update(table.as_str(), updates, conditions) {
                Ok(n) => {
                    let d = usize_to_string(n);
                    ExecuteResult::SuccessMsg(cat2("Updated Rows: ", d.as_str()))
                },
                Err(e) => ExecuteResult::ErrorMsg(e),
            }
        },
        Command::Delete { table, conditions } => match engine.delete(table.as_str(), conditions) {
            Ok(n) => {
                let d = usize_to_string(n);
                ExecuteResult::SuccessMsg(cat2("Deleted Rows: ", d.as_str()))
            },
            Err(e) => ExecuteResult::ErrorMsg(e),
        },
        Command::ShowTables => match engine.list_tables() {
            Ok(names) => {
                assert(strings_view(names@) =~= engine@.tables.map_values(|t: TableV| t.name));
                ExecuteResult::Tables(names)
            },
            Err(e) => ExecuteResult::ErrorMsg(e),
        },
    }
}

/// The response a result is sent back as.
pub open spec fn response_spec(r: ExecuteResultV) -> MessageTypeV {
    match r {
        ExecuteResultV::SuccessMsg(m) => MessageTypeV::Response { sucess: true, message: Some(m), data: None },
        ExecuteResultV::ErrorMsg(m) => MessageTypeV::Response { sucess: false, message: Some(m), data: None },
        ExecuteResultV::Rows(rows) => MessageTypeV::Response { sucess: true, message: None, data: Some(ResponseDataV::Rows(rows)) },
        ExecuteResultV::Tables(t) => MessageTypeV::Response { sucess: true, message: None, data: Some(ResponseDataV::Tables(t)) },
    }
}

/// The response a result is sent back as.
pub fn result_to_response(result: ExecuteResult) -> (r: MessageType)
    ensures
        r@ == response_spec(result@),
{
    match result {
        ExecuteResult::SuccessMsg(msg) => MessageType::Response { sucess: true, message: Some(msg), data: None },
        ExecuteResult::ErrorMsg(msg) => MessageType::Response { sucess: false, message: Some(msg), data: None },
        ExecuteResult::Rows(rows) => MessageType::Response { sucess: true, message: None, data: Some(ResponseData::Rows(rows)) },
        ExecuteResult::Tables(tables) => MessageType::Response { sucess: true, message: None, data: Some(ResponseData::Tables(tables)) },
    }
}

/// What a message to the service comes to: an `ExecCmd` with a command is
/// executed; one without is `Command is Missing`; any other message is
/// `This only handles ExecCmd Message`.
pub open spec fn respond_spec(e: EngineV, m: MessageV) -> (EngineV, ExecuteResultV) {
    match m.msg_type {
        MessageTypeV::ExecCmd => match m.command {
            Some(c) => handle_spec(e, c),
            None => (e, ExecuteResultV::ErrorMsg("Command is Missing"@)),
        },
        _ => (e, ExecuteResultV::ErrorMsg("This only handles ExecCmd Message"@)),
    }
}

/// The service answers a message with a response under an empty id; `None`
/// when the command reads a table whose columns have different lengths, so
/// that its rows cannot be assembled (nothing is executed then).
pub fn respond(engine: &mut Engine, msg: Message) -> (r: Option<Message>)
    requires
        engine_wf(old(engine)@),
    ensures
        engine_wf(final(engine)@),
        match r {
            Some(m) => final(engine)@ == respond_spec(old(engine)@, msg@).0
                && m@.msg_type == response_spec(respond_spec(old(engine)@, msg@).1)
                && m@.id == Seq::<char>::empty() && m@.node_id == Seq::<char>::empty()
                && m@.command is None && m@.payload == Seq::<u8>::empty(),
            None => final(engine)@ == old(engine)@ && msg@.msg_type is ExecCmd
                && (msg@.command matches Some(c) && !command_aligned(old(engine)@, c)),
        },
{
    let result = match msg.msg_type {
        MessageType::ExecCmd => match msg.command {
            Some(cmd) => {
                if !command_is_aligned(engine, &cmd) {
                    return None;
                }
                handle_command(engine, cmd)
            },
            None => ExecuteResult::ErrorMsg("Command is Missing".to_owned()),
        },
        _ => ExecuteResult::ErrorMsg("This only handles ExecCmd Message".to_owned()),
    };
    let msg_type = result_to_response(result);
    Some(Message::new(String::new(), msg_type, String::new()))
}

} // verus!

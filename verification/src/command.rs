//! Commands that the SQL front end produces and the engine executes, and the
//! errors of parsing.

use vstd::prelude::*;
use crate::engine::{conditions_view, data_view};
use crate::text::cat2;
use crate::types::{Condition, ConditionV, Data, DataV, Entity, EntityV, Table, TableV};

verus! {

/// A database command.
#[derive(Debug)]
pub enum Command {
    CreateTable(Table),
    DropTable(String),
    Insert(Entity),
    Select { table: String, attrs: Vec<String>, conditions: Vec<Condition> },
    Update { table: String, updates: Vec<Data>, conditions: Vec<Condition> },
    Delete { table: String, conditions: Vec<Condition> },
    ShowTables,
}

pub enum CommandV {
    CreateTable(TableV),
    DropTable(Seq<char>),
    Insert(EntityV),
    Select { table: Seq<char>, attrs: Seq<Seq<char>>, conditions: Seq<ConditionV> },
    Update { table: Seq<char>, updates: Seq<DataV>, conditions: Seq<ConditionV> },
    Delete { table: Seq<char>, conditions: Seq<ConditionV> },
    ShowTables,
}

pub open spec fn strings_view(v: Seq<String>) -> Seq<Seq<char>> {
    v.map_values(|s: String| s@)
}

impl View for Command {
    type V = CommandV;

    open spec fn view(&self) -> CommandV {
        match self {
            Command::CreateTable(t) => CommandV::CreateTable(t@),
            Command::DropTable(n) => CommandV::DropTable(n@),
            Command::Insert(e) => CommandV::Insert(e@),
            Command::Select { table, attrs, conditions } => CommandV::Select {
                table: table@,
                attrs: strings_view(attrs@),
                conditions: conditions_view(conditions@),
            },
            Command::Update { table, updates, conditions } => CommandV::Update {
                table: table@,
                updates: data_view(updates@),
                conditions: conditions_view(conditions@),
            },
            Command::Delete { table, conditions } => CommandV::Delete { table: table@, conditions: conditions_view(conditions@) },
            Command::ShowTables => CommandV::ShowTables,
        }
    }
}

/// A copy of a list of strings.
pub fn clone_strings(v: &Vec<String>) -> (r: Vec<String>)
    ensures
        strings_view(r@) == strings_view(v@),
{
    let mut out: Vec<String> = Vec::new();
    let mut i: usize = 0;
    while i < v.len()
        invariant
            i <= v@.len(),
            strings_view(out@) =~= strings_view(v@).take(i as int),
        decreases v@.len() - i,
    {
        let ghost p = out@;
        out.push(v[i].clone());
        assert(strings_view(out@) =~= strings_view(p).push(v@[i as int]@));
        i = i + 1;
    }
    assert(strings_view(v@).take(i as int) =~= strings_view(v@));
    out
}

fn clone_conditions(v: &Vec<Condition>) -> (r: Vec<Condition>)
    ensures
        conditions_view(r@) == conditions_view(v@),
{
    let mut out: Vec<Condition> = Vec::new();
    let mut i: usize = 0;
    while i < v.len()
        invariant
            i <= v@.len(),
            conditions_view(out@) =~= conditions_view(v@).take(i as int),
        decreases v@.len() - i,
    {
        let ghost p = out@;
        out.push(v[i].clone());
        assert(conditions_view(out@) =~= conditions_view(p).push(v@[i as int]@));
        i = i + 1;
    }
    assert(conditions_view(v@).take(i as int) =~= conditions_view(v@));
    out
}

fn clone_data(v: &Vec<Data>) -> (r: Vec<Data>)
    ensures
        data_view(r@) == data_view(v@),
{
    let mut out: Vec<Data> = Vec::new();
    let mut i: usize = 0;
    while i < v.len()
        invariant
            i <= v@.len(),
            data_view(out@) =~= data_view(v@).take(i as int),
        decreases v@.len() - i,
    {
        let ghost p = out@;
        out.push(v[i].clone());
        assert(data_view(out@) =~= data_view(p).push(v@[i as int]@));
        i = i + 1;
    }
    assert(data_view(v@).take(i as int) =~= data_view(v@));
    out
}

impl Clone for Command {
    fn clone(&self) -> (r: Self)
        ensures
            r@ == self@,
    {
        match self {
            Command::CreateTable(t) => Command::CreateTable(t.clone()),
            Command::DropTable(n) => Command::DropTable(n.clone()),
            Command::Insert(e) => Command::Insert(e.clone()),
            Command::Select { table, attrs, conditions } => Command::Select {
                table: table.clone(),
                attrs: clone_strings(attrs),
                conditions: clone_conditions(conditions),
            },
            Command::Update { table, updates, conditions } => Command::Update {
                table: table.clone(),
                updates: clone_data(updates),
                conditions: clone_conditions(conditions),
            },
            Command::Delete { table, conditions } => Command::Delete { table: table.clone(), conditions: clone_conditions(conditions) },
            Command::ShowTables => Command::ShowTables,
        }
    }
}

/// Why a statement could not be turned into a command.
#[derive(Debug)]
pub enum CmdError {
    Syntax(String),
    Unsupported(String),
    UnsupportedExpr(String),
    Empty,
}

pub enum CmdErrorV {
    Syntax(Seq<char>),
    Unsupported(Seq<char>),
    UnsupportedExpr(Seq<char>),
    Empty,
}

impl View for CmdError {
    type V = CmdErrorV;

    open spec fn view(&self) -> CmdErrorV {
        match self {
            CmdError::Syntax(s) => CmdErrorV::Syntax(s@),
            CmdError::Unsupported(s) => CmdErrorV::Unsupported(s@),
            CmdError::UnsupportedExpr(s) => CmdErrorV::UnsupportedExpr(s@),
            CmdError::Empty => CmdErrorV::Empty,
        }
    }
}

/// The message of a parse error.
pub open spec fn cmd_error_text(e: CmdErrorV) -> Seq<char> {
    match e {
        CmdErrorV::Syntax(s) => "syntax error: "@ + s,
        CmdErrorV::Unsupported(s) => "unsupported statement: "@ + s,
        CmdErrorV::UnsupportedExpr(s) => "unsupported expression: "@ + s,
        CmdErrorV::Empty => "empty input"@,
    }
}

impl CmdError {
    /// The message of the error.
    pub fn to_string(&self) -> (r: String)
        ensures
            r@ == cmd_error_text(self@),
    {
        match self {
            CmdError::Syntax(s) => cat2("syntax error: ", s.as_str()),
            CmdError::Unsupported(s) => cat2("unsupported statement: ", s.as_str()),
            CmdError::UnsupportedExpr(s) => cat2("unsupported expression: ", s.as_str()),
            CmdError::Empty => "empty input".to_owned(),
        }
    }
}

} // verus!

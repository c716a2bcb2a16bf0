//! Execution of commands against the engine, and the text of their results.

use vstd::prelude::*;
use crate::command::{strings_view, Command, CommandV};
use crate::engine::{
    create_spec, delete_spec, drop_spec, engine_wf, entities_view, insert_spec, select_spec, strs_view, table_aligned,
    update_spec, Engine, EngineV,
};
use crate::text::{cat2, cat3, i32_text, i32_to_string, join_with, nat_digits, trim_end_whitespace, trim_end_ws, usize_to_string};
use crate::types::{DataV, Entity, EntityV, Value, ValueV};

verus! {

/// The outcome of a command: a message, an error message, or rows.
#[derive(Debug)]
pub enum ExecuteResult {
    Success(String),
    Error(String),
    Rows(Vec<Entity>),
}

pub enum ExecuteResultV {
    Success(Seq<char>),
    Error(Seq<char>),
    Rows(Seq<EntityV>),
}

impl View for ExecuteResult {
    type V = ExecuteResultV;

    open spec fn view(&self) -> ExecuteResultV {
        match self {
            ExecuteResult::Success(s) => ExecuteResultV::Success(s@),
            ExecuteResult::Error(s) => ExecuteResultV::Error(s@),
            ExecuteResult::Rows(r) => ExecuteResultV::Rows(entities_view(r@)),
        }
    }
}

/// What `{:?}` writes for a string: the string quoted, with escapes.
pub uninterp spec fn debug_str(s: Seq<char>) -> Seq<char>;

/// Formats a string with `{:?}`.
#[verifier::external_body]
fn debug_string(s: &str) -> (r: String)
    ensures
        r@ == debug_str(s@),
{
    format!("{:?}", s)
}

/// What `{:?}` writes for a value.
pub open spec fn value_debug(v: ValueV) -> Seq<char> {
    match v {
        ValueV::Int(i) => "Int("@ + i32_text(i) + ")"@,
        ValueV::VarChar(s) => "VarChar("@ + debug_str(s) + ")"@,
        ValueV::Null => "Null"@,
    }
}

/// A field written as `name=value`.
pub open spec fn field_text(d: DataV) -> Seq<char> {
    d.name + "="@ + value_debug(d.value)
}

/// A row written as an indented line of its fields.
pub open spec fn row_line(e: EntityV) -> Seq<char> {
    "  "@ + join_with(e.data.map_values(|d: DataV| field_text(d)), ", "@) + "\n"@
}

/// The lines of all rows.
pub open spec fn rows_text(rows: Seq<EntityV>) -> Seq<char>
    decreases rows.len(),
{
    if rows.len() == 0 {
        Seq::empty()
    } else {
        rows_text(rows.drop_last()) + row_line(rows.last())
    }
}

/// The text of a set of rows: a count, then one line per row.
pub open spec fn format_rows_spec(rows: Seq<EntityV>) -> Seq<char> {
    if rows.len() == 0 {
        "OK: 0 row(s)"@
    } else {
        trim_end_ws("OK: "@ + nat_digits(rows.len()) + " row(s)\n"@ + rows_text(rows))
    }
}

fn value_debug_string(v: &Value) -> (r: String)
    ensures
        r@ == value_debug(v@),
{
    match v {
        Value::Int(i) => {
            let d = i32_to_string(*i);
            cat3("Int(", d.as_str(), ")")
        },
        Value::VarChar(s) => {
            let d = debug_string(s.as_str());
            cat3("VarChar(", d.as_str(), ")")
        },
        Value::Null => "Null".to_owned(),
    }
}

fn row_line_string(e: &Entity) -> (r: String)
    ensures
        r@ == row_line(e@),
{
    let ghost parts = e@.data.map_values(|d: DataV| field_text(d));
    let mut joined = String::new();
    let mut i: usize = 0;
    while i < e.data.len()
        invariant
            i <= e.data@.len(),
            parts == e@.data.map_values(|d: DataV| field_text(d)),
            joined@ == join_with(parts.take(i as int), ", "@),
        decreases e.data@.len() - i,
    {
        let d = &e.data[i];
        assert(parts[i as int] == field_text(d@));
        let v = value_debug_string(&d.value);
        let f = cat3(d.name.as_str(), "=", v.as_str());
        assert(parts.take(i + 1).drop_last() =~= parts.take(i as int));
        assert(parts.take(i + 1).last() == parts[i as int]);
        if i == 0 {
            joined = f;
        } else {
            joined.append(", ");
            joined.append(f.as_str());
        }
        proof {
            if i == 0 {
                assert(parts.take(1).len() == 1);
            }
        }
        i = i + 1;
    }
    assert(parts.take(i as int) =~= parts);
    cat3("  ", joined.as_str(), "\n")
}

/// The text of a set of rows: `OK: 0 row(s)` when there are none; otherwise the
/// count followed by one line per row of `name=value` fields.
pub fn format_rows(rows: Vec<Entity>) -> (r: String)
    ensures
        r@ == format_rows_spec(entities_view(rows@)),
{
    if rows.len() == 0 {
        return "OK: 0 row(s)".to_owned();
    }
    let count = usize_to_string(rows.len());
    let mut out = cat3("OK: ", count.as_str(), " row(s)\n");
    let ghost head = out@;
    let mut i: usize = 0;
    while i < rows.len()
        invariant
            i <= rows@.len(),
            out@ == head + rows_text(entities_view(rows@).take(i as int)),
        decreases rows@.len() - i,
    {
        let line = row_line_string(&rows[i]);
        out.append(line.as_str());
        assert(entities_view(rows@).take(i + 1).drop_last() =~= entities_view(rows@).take(i as int));
        assert(entities_view(rows@).take(i + 1).last() == rows@[i as int]@);
        i = i + 1;
    }
    assert(entities_view(rows@).take(i as int) =~= entities_view(rows@));
    trim_end_whitespace(out.as_str())
}

/// The text of a result: the message, or the rows formatted.
pub open spec fn result_text(r: ExecuteResultV) -> Seq<char> {
    match r {
        ExecuteResultV::Success(s) => s,
        ExecuteResultV::Error(s) => s,
        ExecuteResultV::Rows(rows) => format_rows_spec(rows),
    }
}

impl ExecuteResult {
    /// The text of the result: the message, or the rows formatted.
    pub fn to_string(&self) -> (r: String)
        ensures
            r@ == result_text(self@),
    {
        match self {
            ExecuteResult::Success(s) => s.clone(),
            ExecuteResult::Error(s) => s.clone(),
            ExecuteResult::Rows(rows) => format_rows(clone_rows(rows)),
        }
    }
}

/// Whether the table that a command reads rows of, if any, can have its rows
/// assembled.
pub open spec fn command_aligned(e: EngineV, c: CommandV) -> bool {
    match c {
        CommandV::Select { table, .. } => table_aligned(e, table),
        CommandV::Update { table, .. } => table_aligned(e, table),
        CommandV::Delete { table, .. } => table_aligned(e, table),
        _ => true,
    }
}

/// The new state and the result of executing a command.
pub open spec fn execute_spec(e: EngineV, c: CommandV) -> (EngineV, ExecuteResultV) {
    match c {
        CommandV::CreateTable(t) => {
            let (e2, r) = create_spec(e, t);
            (e2, match r {
                Ok(_) => ExecuteResultV::Success("OK: table '"@ + t.name + "' created"@),
                Err(m) => ExecuteResultV::Error("Error: "@ + m),
            })
        },
        CommandV::DropTable(name) => {
            let (e2, r) = drop_spec(e, name);
            (e2, match r {
                Ok(_) => ExecuteResultV::Success("OK: table '"@ + name + "' dropped"@),
                Err(m) => ExecuteResultV::Error("Error: "@ + m),
            })
        },
        CommandV::Insert(row) => {
            let (e2, r) = insert_spec(e, row);
            (e2, match r {
                Ok(_) => ExecuteResultV::Success("OK: "@ + nat_digits(row.data.len()) + " row inserted into '"@ + row.of + "'"@),
                Err(m) => ExecuteResultV::Error("Error: "@ + m),
            })
        },
        CommandV::Select { table, attrs, conditions } => (e, match select_spec(e, table, attrs, conditions) {
            Ok(rows) => ExecuteResultV::Rows(rows),
            Err(m) => ExecuteResultV::Error("Error: "@ + m),
        }),
        CommandV::Update { table, updates, conditions } => {
            let (e2, r) = update_spec(e, table, updates, conditions);
            (e2, match r {
                Ok(n) => ExecuteResultV::Success("OK: "@ + nat_digits(n) + " row(s) updated"@),
                Err(m) => ExecuteResultV::Error("Error: "@ + m),
            })
        },
        CommandV::Delete { table, conditions } => {
            let (e2, r) = delete_spec(e, table, conditions);
            (e2, match r {
                Ok(n) => ExecuteResultV::Success("OK: "@ + nat_digits(n) + " row(s) deleted"@),
                Err(m) => ExecuteResultV::Error("Error: "@ + m),
            })
        },
        CommandV::ShowTables => (e, if e.tables.len() == 0 {
            ExecuteResultV::Error("Error: "@ + "No tables exist"@)
        } else {
            ExecuteResultV::Success("OK: "@ + join_with(e.tables.map_values(|t: crate::types::TableV| t.name), ", "@))
        }),
    }
}

/// Whether the rows of the table a command reads, if any, can be assembled.
pub fn command_is_aligned(engine: &Engine, cmd: &Command) -> (r: bool)
    requires
        engine_wf(engine@),
    ensures
        r == command_aligned(engine@, cmd@),
{
    match cmd {
        Command::Select { table, .. } => engine.is_aligned(table.as_str()),
        Command::Update { table, .. } => engine.is_aligned(table.as_str()),
        Command::Delete { table, .. } => engine.is_aligned(table.as_str()),
        _ => true,
    }
}

/// Executes a command against the engine.
pub fn execute(engine: &mut Engine, cmd: Command) -> (r: ExecuteResult)
    requires
        engine_wf(old(engine)@),
        command_aligned(old(engine)@, cmd@),
    ensures
        engine_wf(final(engine)@),
        final(engine)@ == execute_spec(old(engine)@, cmd@).0,
        r@ == execute_spec(old(engine)@, cmd@).1,
{
    match cmd {
        Command::CreateTable(t) => {
            let r = match engine.create_table(&t) {
                Ok(_) => ExecuteResult::Success(cat3("OK: table '", t.name.as_str(), "' created")),
                Err(e) => ExecuteResult::Error(cat2("Error: ", e.as_str())),
            };
            r
        },
        Command::DropTable(name) => {
            let r = match engine.drop_table(name.as_str()) {
                Ok(_) => ExecuteResult::Success(cat3("OK: table '", name.as_str(), "' dropped")),
                Err(e) => ExecuteResult::Error(cat2("Error: ", e.as_str())),
            };
            r
        },
        Command::Insert(e) => match engine.insert(&e) {
            Ok(_) => {
                let n = usize_to_string(e.data.len());
                let head = cat3("OK: ", n.as_str(), " row inserted into '");
                let r = ExecuteResult::Success(cat3(head.as_str(), e.of.as_str(), "'"));
                r
            },
            Err(m) => ExecuteResult::Error(cat2("Error: ", m.as_str())),
        },
        Command::Select { table, attrs, conditions } => {
            let mut refs: Vec<&str> = Vec::new();
            let mut i: usize = 0;
            while i < attrs.len()
                invariant
                    i <= attrs@.len(),
                    strs_view(refs@) =~= strings_view(attrs@).take(i as int),
                decreases attrs@.len() - i,
            {
                let ghost p = refs@;
                refs.push(attrs[i].as_str());
                assert(strs_view(refs@) =~= strs_view(p).push(attrs@[i as int]@));
                i = i + 1;
            }
            assert(strings_view(attrs@).take(i as int) =~= strings_view(attrs@));
            let r = match engine.select(table.as_str(), refs, conditions) {
                Ok(rows) => ExecuteResult::Rows(rows),
                Err(m) => ExecuteResult::Error(cat2("Error: ", m.as_str())),
            };
            r
        },
        Command::Update { table, updates, conditions } => {
            let r = match engine.update(table.as_str(), updates, conditions) {
                Ok(n) => {
                    let d = usize_to_string(n);
                    ExecuteResult::Success(cat3("OK: ", d.as_str(), " row(s) updated"))
                },
                Err(m) => ExecuteResult::Error(cat2("Error: ", m.as_str())),
            };
            r
        },
        Command::Delete { table, conditions } => {
            let r = match engine.delete(table.as_str(), conditions) {
                Ok(n) => {
                    let d = usize_to_string(n);
                    ExecuteResult::Success(cat3("OK: ", d.as_str(), " row(s) deleted"))
                },
                Err(m) => ExecuteResult::Error(cat2("Error: ", m.as_str())),
            };
            r
        },
        Command::ShowTables => match engine.list_tables() {
            Ok(names) => {
                let j = join_strings(&names, ", ");
                assert(names@.map_values(|s: String| s@) =~= engine@.tables.map_values(|t: crate::types::TableV| t.name));
                let r = ExecuteResult::Success(cat2("OK: ", j.as_str()));
                r
            },
            Err(m) => {
                let r = ExecuteResult::Error(cat2("Error: ", m.as_str()));
                r
            },
        },
    }
}

/// The strings joined with `sep` between consecutive ones.
pub fn join_strings(parts: &Vec<String>, sep: &str) -> (r: String)
    ensures
        r@ == join_with(parts@.map_values(|s: String| s@), sep@),
{
    let ghost pv = parts@.map_values(|s: String| s@);
    let mut out = String::new();
    let mut i: usize = 0;
    while i < parts.len()
        invariant
            i <= parts@.len(),
            pv == parts@.map_values(|s: String| s@),
            out@ == join_with(pv.take(i as int), sep@),
        decreases parts@.len() - i,
    {
        assert(pv.take(i + 1).drop_last() =~= pv.take(i as int));
        assert(pv.take(i + 1).last() == parts@[i as int]@);
        if i == 0 {
            out = parts[i].clone();
            assert(pv.take(1).len() == 1);
        } else {
            out.append(sep);
            out.append(parts[i].as_str());
        }
        i = i + 1;
    }
    assert(pv.take(i as int) =~= pv);
    out
}

/// A copy of a set of rows.
pub fn clone_rows(rows: &Vec<Entity>) -> (r: Vec<Entity>)
    ensures
        entities_view(r@) == entities_view(rows@),
{
    let mut out: Vec<Entity> = Vec::new();
    let mut i: usize = 0;
    while i < rows.len()
        invariant
            i <= rows@.len(),
            entities_view(out@) =~= entities_view(rows@).take(i as int),
        decreases rows@.len() - i,
    {
        let e = &rows[i];
        let mut data: Vec<crate::types::Data> = Vec::new();
        let mut j: usize = 0;
        while j < e.data.len()
            invariant
                j <= e.data@.len(),
                crate::engine::data_view(data@) =~= e@.data.take(j as int),
            decreases e.data@.len() - j,
        {
            let ghost p = data@;
            data.push(e.data[j].clone());
            assert(crate::engine::data_view(data@) =~= crate::engine::data_view(p).push(e@.data[j as int]));
            j = j + 1;
        }
        assert(e@.data.take(j as int) =~= e@.data);
        let ghost p = out@;
        out.push(Entity { of: e.of.clone(), data });
        assert(entities_view(out@) =~= entities_view(p).push(rows@[i as int]@));
        i = i + 1;
    }
    assert(entities_view(rows@).take(i as int) =~= entities_view(rows@));
    out
}

} // verus!

//! The HTTP query service: a SQL text in, a status code and an answer out.

use vstd::prelude::*;
use crate::command::{cmd_error_text, CmdError, CmdErrorV, CommandV};
use crate::engine::{engine_wf, entities_view, Engine, EngineV};
use crate::executor::{command_aligned, command_is_aligned, execute, execute_spec, ExecuteResult, ExecuteResultV};
use crate::parser::{parse_cmd, parse_outcome};
use crate::sql::sql_parse;
use crate::types::{Entity, EntityV};

verus! {

/// A query request: the SQL text.
#[derive(Debug)]
pub struct QueryRequest {
    pub query: String,
}

/// The answer to a query: whether it succeeded, its message, its rows.
#[derive(Debug)]
pub struct QueryResponse {
    pub success: bool,
    pub message: Option<String>,
    pub rows: Option<Vec<Entity>>,
}

pub struct QueryResponseV {
    pub success: bool,
    pub message: Option<Seq<char>>,
    pub rows: Option<Seq<EntityV>>,
}

impl View for QueryResponse {
    type V = QueryResponseV;

    open spec fn view(&self) -> QueryResponseV {
        QueryResponseV {
            success: self.success,
            message: match self.message {
                Some(m) => Some(m@),
                None => None,
            },
            rows: match self.rows {
                Some(r) => Some(entities_view(r@)),
                None => None,
            },
        }
    }
}

/// HTTP 200.
pub const STATUS_OK: u16 = 200;

/// HTTP 400.
pub const STATUS_BAD_REQUEST: u16 = 400;

/// HTTP 501.
pub const STATUS_NOT_IMPLEMENTED: u16 = 501;

/// The status of a parse error: a bad request for an empty or malformed
/// text, not implemented for what the engine does not support.
pub open spec fn error_status_spec(e: CmdErrorV) -> u16 {
    match e {
        CmdErrorV::Empty => STATUS_BAD_REQUEST,
        CmdErrorV::Syntax(_) => STATUS_BAD_REQUEST,
        CmdErrorV::Unsupported(_) => STATUS_NOT_IMPLEMENTED,
        CmdErrorV::UnsupportedExpr(_) => STATUS_NOT_IMPLEMENTED,
    }
}

/// The status of a parse error.
pub fn error_status(e: &CmdError) -> (r: u16)
    ensures
        r == error_status_spec(e@),
{
    match e {
        CmdError::Empty | CmdError::Syntax(_) => STATUS_BAD_REQUEST,
        CmdError::Unsupported(_) | CmdError::UnsupportedExpr(_) => STATUS_NOT_IMPLEMENTED,
    }
}

/// The status and answer of an executed command's result.
pub open spec fn answer_spec(r: ExecuteResultV) -> (u16, QueryResponseV) {
    match r {
        ExecuteResultV::Success(m) => (STATUS_OK, QueryResponseV { success: true, message: Some(m), rows: None }),
        ExecuteResultV::Error(m) => (STATUS_BAD_REQUEST, QueryResponseV { success: false, message: Some(m), rows: None }),
        ExecuteResultV::Rows(rows) => (STATUS_OK, QueryResponseV { success: true, message: None, rows: Some(rows) }),
    }
}

/// The engine after a query and the status and answer it gets.
pub open spec fn query_spec(e: EngineV, sql: Seq<char>) -> (EngineV, (u16, QueryResponseV)) {
    match parse_outcome(sql_parse(sql)) {
        Err(err) => (e, (error_status_spec(err), QueryResponseV { success: false, message: Some(cmd_error_text(err)), rows: None })),
        Ok(c) => (execute_spec(e, c).0, answer_spec(execute_spec(e, c).1)),
    }
}

/// Parses and executes a query; `None` when it reads a table whose columns
/// have different lengths, so that its rows cannot be assembled (nothing is
/// executed then).
pub fn handle_query(engine: &mut Engine, request: &QueryRequest) -> (r: Option<(u16, QueryResponse)>)
    requires
        engine_wf(old(engine)@),
    ensures
        engine_wf(final(engine)@),
        match r {
            Some((status, resp)) => final(engine)@ == query_spec(old(engine)@, request.query@).0
                && (status, resp@) == query_spec(old(engine)@, request.query@).1,
            None => final(engine)@ == old(engine)@
                && (parse_outcome(sql_parse(request.query@)) matches Ok(c) && !command_aligned(old(engine)@, c)),
        },
{
    let cmd = match parse_cmd(request.query.as_str()) {
        Ok(cmd) => cmd,
        Err(e) => {
            let status = error_status(&e);
            return Some((status, QueryResponse { success: false, message: Some(e.to_string()), rows: None }));
        },
    };
    if !command_is_aligned(engine, &cmd) {
        return None;
    }
    let answer = match execute(engine, cmd) {
        ExecuteResult::Success(msg) => (STATUS_OK, QueryResponse { success: true, message: Some(msg), rows: None }),
        ExecuteResult::Error(msg) => (STATUS_BAD_REQUEST, QueryResponse { success: false, message: Some(msg), rows: None }),
        ExecuteResult::Rows(rows) => (STATUS_OK, QueryResponse { success: true, message: None, rows: Some(rows) }),
    };
    Some(answer)
}

} // verus!

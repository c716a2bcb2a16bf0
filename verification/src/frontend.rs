//! The interactive front ends' decisions: the command-line shell, the network
//! client's input and script handling, and the standalone query server.

use vstd::prelude::*;
use crate::command::cmd_error_text;
use crate::engine::{engine_wf, Engine, EngineV};
use crate::executor::{command_aligned, command_is_aligned, execute, execute_spec, result_text};
use crate::parser::{parse_cmd, parse_outcome};
use crate::protocol::{Message, MessageType, MessageTypeV, MessageV};
use crate::server::Served;
use crate::sql::sql_parse;
use crate::text::{cat2, str_eq, text_bytes, trim_whitespace, trim_ws, utf8_string};
use vstd::utf8::{decode_utf8, encode_utf8, valid_utf8};

verus! {

/// The pieces of a text between semicolons, as `str::split(';')` gives them.
pub open spec fn split_semicolons(s: Seq<char>) -> Seq<Seq<char>>
    decreases s.len(),
{
    if s.len() == 0 {
        seq![Seq::empty()]
    } else {
        let p = split_semicolons(s.drop_last());
        if s.last() == ';' {
            p.push(Seq::empty())
        } else {
            p.update(p.len() - 1, p.last().push(s.last()))
        }
    }
}

proof fn lemma_split_nonempty(s: Seq<char>)
    ensures
        split_semicolons(s).len() >= 1,
    decreases s.len(),
{
    if s.len() > 0 {
        lemma_split_nonempty(s.drop_last());
    }
}

/// The statements of a script: the pieces between semicolons, trimmed, the
/// empty ones left out.
pub open spec fn statements_of(s: Seq<char>) -> Seq<Seq<char>> {
    split_semicolons(s).map_values(|x: Seq<char>| trim_ws(x)).filter(|x: Seq<char>| x.len() > 0)
}

pub open spec fn texts_of(v: Seq<String>) -> Seq<Seq<char>> {
    v.map_values(|s: String| s@)
}

proof fn lemma_trimmed_push(done: Seq<Seq<char>>, piece: Seq<char>)
    ensures
        done.push(piece).map_values(|x: Seq<char>| trim_ws(x)).filter(|x: Seq<char>| x.len() > 0)
            == (if trim_ws(piece).len() > 0 {
                done.map_values(|x: Seq<char>| trim_ws(x)).filter(|x: Seq<char>| x.len() > 0).push(trim_ws(piece))
            } else {
                done.map_values(|x: Seq<char>| trim_ws(x)).filter(|x: Seq<char>| x.len() > 0)
            }),
{
    let m = done.push(piece).map_values(|x: Seq<char>| trim_ws(x));
    assert(m =~= done.map_values(|x: Seq<char>| trim_ws(x)).push(trim_ws(piece)));
    assert(m.drop_last() =~= done.map_values(|x: Seq<char>| trim_ws(x)));
    reveal_with_fuel(Seq::filter, 1);
}

/// Splits a script into its statements.
pub fn split_statements(contents: &str) -> (r: Vec<String>)
    ensures
        texts_of(r@) == statements_of(contents@),
{
    let n = contents.unicode_len();
    let ghost s = contents@;
    let ghost mut done: Seq<Seq<char>> = Seq::empty();
    let mut out: Vec<String> = Vec::new();
    let mut start: usize = 0;
    let mut i: usize = 0;
    assert(s.take(0) =~= Seq::<char>::empty());
    assert(s.subrange(0, 0) =~= Seq::<char>::empty());
    assert(done.push(s.subrange(0, 0)) =~= seq![Seq::<char>::empty()]);
    assert(done.map_values(|x: Seq<char>| trim_ws(x)).filter(|x: Seq<char>| x.len() > 0) =~= Seq::<Seq<char>>::empty()) by {
        reveal_with_fuel(Seq::filter, 1);
    }
    assert(texts_of(out@) =~= Seq::<Seq<char>>::empty());
    while i < n
        invariant
            n == s.len(),
            s == contents@,
            start <= i <= n,
            split_semicolons(s.take(i as int)) == done.push(s.subrange(start as int, i as int)),
            texts_of(out@) == done.map_values(|x: Seq<char>| trim_ws(x)).filter(|x: Seq<char>| x.len() > 0),
        decreases n - i,
    {
        let c = contents.get_char(i);
        assert(s.take(i + 1).drop_last() =~= s.take(i as int));
        assert(s.take(i + 1).last() == c);
        if c == ';' {
            let piece = trim_whitespace(contents.substring_char(start, i));
            proof { lemma_trimmed_push(done, s.subrange(start as int, i as int)); }
            if piece.unicode_len() > 0 {
                let ghost p = out@;
                out.push(piece);
                assert(texts_of(out@) =~= texts_of(p).push(trim_ws(s.subrange(start as int, i as int))));
            }
            proof {
                done = done.push(s.subrange(start as int, i as int));
            }
            start = i + 1;
            assert(s.subrange(start as int, i + 1) =~= Seq::<char>::empty());
        } else {
            assert(s.subrange(start as int, i + 1) =~= s.subrange(start as int, i as int).push(c));
        }
        i = i + 1;
    }
    assert(s.take(n as int) =~= s);
    let piece = trim_whitespace(contents.substring_char(start, n));
    proof { lemma_trimmed_push(done, s.subrange(start as int, n as int)); }
    if piece.unicode_len() > 0 {
        let ghost p = out@;
        out.push(piece);
        assert(texts_of(out@) =~= texts_of(p).push(trim_ws(s.subrange(start as int, n as int))));
    }
    out
}

/// What a line typed at the client asks for.
#[derive(Debug)]
pub enum ClientInput {
    Empty,
    Help,
    Clear,
    /// Run the statements of a script file.
    RunFile(String),
    /// Send the line as SQL.
    Sql(String),
}

pub enum ClientInputV {
    Empty,
    Help,
    Clear,
    RunFile(Seq<char>),
    Sql(Seq<char>),
}

impl View for ClientInput {
    type V = ClientInputV;

    open spec fn view(&self) -> ClientInputV {
        match self {
            ClientInput::Empty => ClientInputV::Empty,
            ClientInput::Help => ClientInputV::Help,
            ClientInput::Clear => ClientInputV::Clear,
            ClientInput::RunFile(p) => ClientInputV::RunFile(p@),
            ClientInput::Sql(s) => ClientInputV::Sql(s@),
        }
    }
}

/// What a line asks for, once trimmed.
pub open spec fn classify_spec(line: Seq<char>) -> ClientInputV {
    let cmd = trim_ws(line);
    if cmd.len() == 0 {
        ClientInputV::Empty
    } else if cmd == "help"@ {
        ClientInputV::Help
    } else if cmd == "clear"@ {
        ClientInputV::Clear
    } else if cmd.len() >= 9 && cmd.subrange(0, 9) == "run-file "@ {
        ClientInputV::RunFile(trim_ws(cmd.subrange(9, cmd.len() as int)))
    } else {
        ClientInputV::Sql(cmd)
    }
}

/// What a line typed at the client asks for.
pub fn classify_input(line: &str) -> (r: ClientInput)
    ensures
        r@ == classify_spec(line@),
{
    proof {
        reveal_strlit("help");
        reveal_strlit("clear");
        reveal_strlit("run-file ");
    }
    let cmd = trim_whitespace(line);
    let n = cmd.unicode_len();
    if n == 0 {
        ClientInput::Empty
    } else if str_eq(cmd.as_str(), "help") {
        ClientInput::Help
    } else if str_eq(cmd.as_str(), "clear") {
        ClientInput::Clear
    } else if n >= 9 && str_eq(cmd.as_str().substring_char(0, 9), "run-file ") {
        let rest = cmd.as_str().substring_char(9, n);
        ClientInput::RunFile(trim_whitespace(rest))
    } else {
        ClientInput::Sql(cmd)
    }
}

/// The query message the client sends: the SQL text under the given id.
pub fn query_message(id: String, node_id: &str, sql: &str) -> (r: Message)
    ensures
        r@.id == id@,
        r@.msg_type is Query,
        r@.node_id == node_id@,
        r@.payload == encode_utf8(sql@),
        r@.command is None,
{
    Message::new(id, MessageType::Query, node_id.to_owned()).with_payload(text_bytes(sql))
}

/// What the shell does with a line.
#[derive(Debug)]
pub enum ShellStep {
    /// Nothing was typed.
    Skip,
    /// Leave the shell.
    Quit,
    /// Print this.
    Output(String),
    /// The statement reads a table whose columns have different lengths, so
    /// its rows cannot be assembled; nothing was executed.
    Unaligned,
}

/// Whether the trimmed line asks to leave.
pub open spec fn is_quit(cmd: Seq<char>) -> bool {
    cmd == "exit"@ || cmd == "quit"@ || cmd == "q"@
}

/// What the shell prints for a statement, and the engine after it.
pub open spec fn shell_output(e: EngineV, sql: Seq<char>) -> (EngineV, Seq<char>) {
    match parse_outcome(sql_parse(sql)) {
        Ok(c) => (execute_spec(e, c).0, result_text(execute_spec(e, c).1)),
        Err(err) => (e, "Parse error: "@ + cmd_error_text(err)),
    }
}

/// The shell's step for a typed line: an empty line is skipped, `exit`,
/// `quit` or `q` leaves, anything else is executed as SQL.
pub fn shell_step(engine: &mut Engine, line: &str) -> (r: ShellStep)
    requires
        engine_wf(old(engine)@),
    ensures
        engine_wf(final(engine)@),
        ({
            let sql = trim_ws(line@);
            match r {
                ShellStep::Skip => sql.len() == 0 && final(engine)@ == old(engine)@,
                ShellStep::Quit => sql.len() > 0 && is_quit(sql) && final(engine)@ == old(engine)@,
                ShellStep::Output(text) => sql.len() > 0 && !is_quit(sql)
                    && final(engine)@ == shell_output(old(engine)@, sql).0 && text@ == shell_output(old(engine)@, sql).1,
                ShellStep::Unaligned => sql.len() > 0 && !is_quit(sql) && final(engine)@ == old(engine)@
                    && (parse_outcome(sql_parse(sql)) matches Ok(c) && !command_aligned(old(engine)@, c)),
            }
        }),
{
    proof {
        reveal_strlit("exit");
        reveal_strlit("quit");
        reveal_strlit("q");
    }
    let sql = trim_whitespace(line);
    if sql.unicode_len() == 0 {
        return ShellStep::Skip;
    }
    if str_eq(sql.as_str(), "exit") || str_eq(sql.as_str(), "quit") || str_eq(sql.as_str(), "q") {
        return ShellStep::Quit;
    }
    match parse_cmd(sql.as_str()) {
        Ok(cmd) => {
            if !command_is_aligned(engine, &cmd) {
                return ShellStep::Unaligned;
            }
            let res = execute(engine, cmd);
            ShellStep::Output(res.to_string())
        },
        Err(e) => {
            let m = e.to_string();
            ShellStep::Output(cat2("Parse error: ", m.as_str()))
        },
    }
}

/// Serves a query message of the node protocol: its payload is SQL text,
/// which is parsed and executed; the reply is a `Response` with the same id
/// from `server`, holding the result text, or an `Error` holding `invalid
/// UTF-8 payload` when the payload is no UTF-8.
pub fn answer_query(engine: &mut Engine, msg: &Message) -> (r: Served<Message>)
    requires
        engine_wf(old(engine)@),
    ensures
        engine_wf(final(engine)@),
        !(msg@.msg_type is Query) ==> r is Ignored && final(engine)@ == old(engine)@,
        msg@.msg_type is Query && !valid_utf8(msg@.payload) ==> final(engine)@ == old(engine)@ && match r {
            Served::Reply(m) => m@.id == msg@.id && m@.msg_type is Error && m@.node_id == "server"@
                && m@.payload == encode_utf8("invalid UTF-8 payload"@),
            _ => false,
        },
        msg@.msg_type is Query && valid_utf8(msg@.payload) ==> {
            let sql = decode_utf8(msg@.payload);
            match parse_outcome(sql_parse(sql)) {
                Ok(c) if !command_aligned(old(engine)@, c) => r is Unaligned && final(engine)@ == old(engine)@,
                _ => final(engine)@ == shell_output(old(engine)@, sql).0 && match r {
                    Served::Reply(m) => m@.id == msg@.id && m@.msg_type is Response && m@.node_id == "server"@
                        && m@.payload == encode_utf8(shell_output(old(engine)@, sql).1),
                    _ => false,
                },
            }
        },
{
    match msg.msg_type {
        MessageType::Query => {},
        _ => return Served::Ignored,
    }
    let sql = match utf8_string(msg.payload.clone()) {
        Some(s) => s,
        None => {
            let err = Message::new(msg.id.clone(), MessageType::Error, "server".to_owned())
                .with_payload(text_bytes("invalid UTF-8 payload"));
            return Served::Reply(err);
        },
    };
    let text = match parse_cmd(sql.as_str()) {
        Ok(cmd) => {
            if !command_is_aligned(engine, &cmd) {
                return Served::Unaligned;
            }
            execute(engine, cmd).to_string()
        },
        Err(e) => {
            let m = e.to_string();
            cat2("Parse error: ", m.as_str())
        },
    };
    let reply = Message::new(msg.id.clone(), MessageType::Response { sucess: true, message: None, data: None }, "server".to_owned())
        .with_payload(text_bytes(text.as_str()));
    Served::Reply(reply)
}

/// The line that shows a command about to run: `$`, the program, and its
/// arguments separated by spaces.
pub fn command_line(program: &str, args: &Vec<String>) -> (r: String)
    ensures
        r@ == "$ "@ + program@ + " "@ + crate::text::join_with(args@.map_values(|s: String| s@), " "@),
{
    let joined = crate::executor::join_strings(args, " ");
    let mut out = cat2("$ ", program);
    out.append(" ");
    out.append(joined.as_str());
    out
}

} // verus!

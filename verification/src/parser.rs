//! From SQL text to a `Command`: the parse is `sqlparser`'s; which statements
//! and expressions become which command, and every error, is decided here.

use vstd::prelude::*;
use crate::command::{CmdError, CmdErrorV, Command, CommandV};
use crate::engine::{conditions_view, data_view, row_matches};
use crate::sql::{
    name_view, names_view, opt_expr_view, parse_sql, sql_parse, SqlAssignTarget, SqlAssignTargetV, SqlAssignment,
    SqlAssignmentV, SqlBinOp, SqlBinOpV, SqlCharLength, SqlCharLengthV, SqlNamePart, SqlNamePartV,
    SqlColumnDef, SqlColumnDefV, SqlDataType, SqlDataTypeV, SqlExpr, SqlExprV, SqlNode, SqlNodeV,
    SqlQuery, SqlQueryV, SqlSelectItem, SqlSelectItemV, SqlStatement, SqlStatementV,
};
use crate::text::{cat2, parse_i32, parse_i32_str};
use crate::types::{
    Attr, AttrV, Condition, ConditionV, Data, DataV, Entity, EntityV, Operator, Table, TableV, Type,
    Value, ValueV,
};

verus! {

/// Converts each element in order; the first error is the result.
pub open spec fn all_ok<A, B>(s: Seq<A>, f: spec_fn(A) -> Result<B, CmdErrorV>) -> Result<Seq<B>, CmdErrorV>
    decreases s.len(),
{
    if s.len() == 0 {
        Ok(Seq::empty())
    } else {
        match all_ok(s.drop_last(), f) {
            Err(e) => Err(e),
            Ok(prefix) => match f(s.last()) {
                Err(e) => Err(e),
                Ok(b) => Ok(prefix.push(b)),
            },
        }
    }
}

/// One more element: the result for a prefix one longer.
pub proof fn lemma_all_ok_step<A, B>(s: Seq<A>, f: spec_fn(A) -> Result<B, CmdErrorV>, i: int)
    requires
        0 <= i < s.len(),
    ensures
        all_ok(s.take(i + 1), f) == (match all_ok(s.take(i), f) {
            Err(e) => Err(e),
            Ok(p) => match f(s[i]) {
                Err(e) => Err(e),
                Ok(b) => Ok(p.push(b)),
            },
        }),
{
    assert(s.take(i + 1).drop_last() =~= s.take(i));
}

/// The first error of a prefix is the first error of the whole.
pub proof fn lemma_all_ok_err<A, B>(s: Seq<A>, f: spec_fn(A) -> Result<B, CmdErrorV>, i: int)
    requires
        0 <= i <= s.len(),
        all_ok(s.take(i), f) is Err,
    ensures
        all_ok(s, f) == all_ok(s.take(i), f),
    decreases s.len() - i,
{
    if i == s.len() {
        assert(s.take(i) =~= s);
    } else {
        lemma_all_ok_step(s, f, i);
        lemma_all_ok_err(s, f, i + 1);
    }
}

/// The value a literal expression stands for: a number that is a 32-bit
/// integer, or a single-quoted string.
pub open spec fn value_of_expr(e: SqlExprV) -> Result<ValueV, CmdErrorV> {
    match e.node {
        SqlNodeV::Number(n) => match parse_i32(n) {
            Some(i) => Ok(ValueV::Int(i)),
            None => Err(CmdErrorV::Syntax("invalid integer: "@ + n)),
        },
        SqlNodeV::Quoted(s) => Ok(ValueV::VarChar(s)),
        _ => Err(CmdErrorV::UnsupportedExpr(e.debug)),
    }
}

/// The comparison operator of a SQL operator.
pub open spec fn operator_of(op: SqlBinOpV) -> Operator {
    match op {
        SqlBinOpV::NotEq => Operator::Ne,
        SqlBinOpV::Lt => Operator::Lt,
        SqlBinOpV::Gt => Operator::Gt,
        SqlBinOpV::LtEq => Operator::Le,
        SqlBinOpV::GtEq => Operator::Ge,
        _ => Operator::Eq,
    }
}

/// The condition an expression stands for: `AND`/`OR` of conditions, a
/// comparison of a column with a literal, or a parenthesised condition.
pub open spec fn condition_of_expr(e: SqlExprV) -> Result<ConditionV, CmdErrorV>
    decreases e,
{
    match e.node {
        SqlNodeV::BinaryOp { left, op, right } => match op {
            SqlBinOpV::And => match condition_of_expr(*left) {
                Err(x) => Err(x),
                Ok(l) => match condition_of_expr(*right) {
                    Err(x) => Err(x),
                    Ok(r) => Ok(ConditionV::And(Box::new(l), Box::new(r))),
                },
            },
            SqlBinOpV::Or => match condition_of_expr(*left) {
                Err(x) => Err(x),
                Ok(l) => match condition_of_expr(*right) {
                    Err(x) => Err(x),
                    Ok(r) => Ok(ConditionV::Or(Box::new(l), Box::new(r))),
                },
            },
            SqlBinOpV::Other(d) => Err(CmdErrorV::UnsupportedExpr(d)),
            _ => match left.node {
                SqlNodeV::Identifier(attr) => match value_of_expr(*right) {
                    Err(x) => Err(x),
                    Ok(v) => Ok(ConditionV::Compare { attr, value: v, op: operator_of(op) }),
                },
                _ => Err(CmdErrorV::UnsupportedExpr(left.debug)),
            },
        },
        SqlNodeV::Nested(inner) => condition_of_expr(*inner),
        _ => Err(CmdErrorV::UnsupportedExpr(e.debug)),
    }
}

/// The conditions of an optional `WHERE`: none, or the one it stands for.
pub open spec fn conditions_of(sel: Option<SqlExprV>) -> Result<Seq<ConditionV>, CmdErrorV> {
    match sel {
        None => Ok(Seq::empty()),
        Some(e) => match condition_of_expr(e) {
            Err(x) => Err(x),
            Ok(c) => Ok(seq![c]),
        },
    }
}

/// The column type a SQL type stands for.
/// `INT` and `INTEGER` are integers, whatever their width; `VARCHAR` with a
/// numeric length is a string of that many bytes; any other type, `VARCHAR`
/// without a length or `VARCHAR(MAX)` among them, is not supported.
pub open spec fn type_of(dt: SqlDataTypeV) -> Result<Type, CmdErrorV> {
    match dt {
        SqlDataTypeV::Int(_) => Ok(Type::Int),
        SqlDataTypeV::Integer(_) => Ok(Type::Int),
        SqlDataTypeV::Varchar { length, debug } => match length {
            Some(SqlCharLengthV::Integer { length: n, .. }) => Ok(Type::VarChar(n as usize)),
            _ => Err(CmdErrorV::Unsupported("data type "@ + debug)),
        },
        SqlDataTypeV::Other(d) => Err(CmdErrorV::Unsupported("data type "@ + d)),
    }
}

/// The column a name stands for: the value of its last part, or empty for a
/// name without parts.
pub open spec fn column_name_spec(parts: Seq<SqlNamePartV>) -> Seq<char> {
    if parts.len() == 0 {
        Seq::empty()
    } else {
        match parts.last() {
            SqlNamePartV::Identifier(v) => v,
            SqlNamePartV::Function(t) => t,
        }
    }
}

/// The column an assignment sets: the one its name stands for, or a tuple
/// target by its text.
pub open spec fn assigned_column(t: SqlAssignTargetV) -> Seq<char> {
    match t {
        SqlAssignTargetV::Column(parts) => column_name_spec(parts),
        SqlAssignTargetV::Tuple(text) => text,
    }
}

pub open spec fn attr_of_column(c: SqlColumnDefV) -> Result<AttrV, CmdErrorV> {
    match type_of(c.data_type) {
        Err(x) => Err(x),
        Ok(t) => Ok(AttrV { name: c.name, data_type: t }),
    }
}

/// The column a select item names: a bare identifier, or `*`.
pub open spec fn attr_of_item(i: SqlSelectItemV) -> Result<Seq<char>, CmdErrorV> {
    match i {
        SqlSelectItemV::Unnamed { expr, debug } => match expr.node {
            SqlNodeV::Identifier(n) => Ok(n),
            _ => Err(CmdErrorV::UnsupportedExpr(debug)),
        },
        SqlSelectItemV::Wildcard => Ok("*"@),
        SqlSelectItemV::Other(d) => Err(CmdErrorV::UnsupportedExpr(d)),
    }
}

pub open spec fn data_of_assignment(a: SqlAssignmentV) -> Result<DataV, CmdErrorV> {
    match value_of_expr(a.value) {
        Err(x) => Err(x),
        Ok(v) => Ok(DataV { name: assigned_column(a.target), value: v }),
    }
}

pub open spec fn row_values(row: Seq<SqlExprV>) -> Result<Seq<ValueV>, CmdErrorV> {
    all_ok(row, |e: SqlExprV| value_of_expr(e))
}

pub open spec fn rows_values(rows: Seq<Seq<SqlExprV>>) -> Result<Seq<Seq<ValueV>>, CmdErrorV> {
    all_ok(rows, |r: Seq<SqlExprV>| row_values(r))
}

pub open spec fn attrs_of_columns(cols: Seq<SqlColumnDefV>) -> Result<Seq<AttrV>, CmdErrorV> {
    all_ok(cols, |c: SqlColumnDefV| attr_of_column(c))
}

pub open spec fn attrs_of_items(items: Seq<SqlSelectItemV>) -> Result<Seq<Seq<char>>, CmdErrorV> {
    all_ok(items, |i: SqlSelectItemV| attr_of_item(i))
}

pub open spec fn updates_of(assignments: Seq<SqlAssignmentV>) -> Result<Seq<DataV>, CmdErrorV> {
    all_ok(assignments, |a: SqlAssignmentV| data_of_assignment(a))
}

/// The rows of the source of an `INSERT`: every row of a `VALUES` list.
pub open spec fn insert_rows_of(q: SqlQueryV) -> Result<Seq<Seq<ValueV>>, CmdErrorV> {
    match q {
        SqlQueryV::Values(rows) => rows_values(rows),
        _ => Err(CmdErrorV::Unsupported("INSERT without VALUES"@)),
    }
}

/// The `Select` command of a query: its first table, its columns and its condition.
pub open spec fn select_of(q: SqlQueryV) -> Result<CommandV, CmdErrorV> {
    match q {
        SqlQueryV::Select { projection, from, selection } => if from.len() == 0 {
            Err(CmdErrorV::Syntax("missing FROM"@))
        } else {
            match attrs_of_items(projection) {
                Err(x) => Err(x),
                Ok(attrs) => match conditions_of(selection) {
                    Err(x) => Err(x),
                    Ok(cs) => Ok(CommandV::Select { table: from[0], attrs, conditions: cs }),
                },
            }
        },
        _ => Err(CmdErrorV::Unsupported("non-SELECT query"@)),
    }
}

/// The fields of an inserted row: column names paired with values in order.
pub open spec fn zip_fields(names: Seq<Seq<char>>, values: Seq<ValueV>) -> Seq<DataV> {
    Seq::new(names.len(), |i: int| DataV { name: names[i], value: values[i] })
}

pub open spec fn insert_of(table: Seq<char>, columns: Seq<Seq<char>>, source: Option<SqlQueryV>) -> Result<CommandV, CmdErrorV> {
    match source {
        None => Err(CmdErrorV::Syntax("INSERT requires VALUES"@)),
        Some(q) => match insert_rows_of(q) {
            Err(x) => Err(x),
            Ok(rows) => if rows.len() == 0 {
                Err(CmdErrorV::Syntax("INSERT requires a row of values"@))
            } else if rows[0].len() != columns.len() {
                Err(CmdErrorV::Syntax("column/value count mismatch"@))
            } else {
                Ok(CommandV::Insert(EntityV { of: table, data: zip_fields(columns, rows[0]) }))
            },
        },
    }
}

/// The command a statement stands for, or why there is none.
pub open spec fn command_of(stmt: SqlStatementV) -> Result<CommandV, CmdErrorV> {
    match stmt {
        SqlStatementV::CreateTable { name, columns } => match attrs_of_columns(columns) {
            Err(x) => Err(x),
            Ok(attrs) => Ok(CommandV::CreateTable(TableV { name, attrs })),
        },
        SqlStatementV::ShowTables => Ok(CommandV::ShowTables),
        SqlStatementV::Drop { names } => if names.len() == 0 {
            Err(CmdErrorV::Syntax("missing table name"@))
        } else {
            Ok(CommandV::DropTable(names[0]))
        },
        SqlStatementV::Insert { table, columns, source } => insert_of(
            table,
            columns.map_values(|n: Seq<SqlNamePartV>| column_name_spec(n)),
            source,
        ),
        SqlStatementV::Query(q) => select_of(q),
        SqlStatementV::Update { table, assignments, selection } => match updates_of(assignments) {
            Err(x) => Err(x),
            Ok(updates) => match conditions_of(selection) {
                Err(x) => Err(x),
                Ok(cs) => Ok(CommandV::Update { table, updates, conditions: cs }),
            },
        },
        SqlStatementV::Delete { from, selection } => if from.len() == 0 {
            Err(CmdErrorV::Syntax("missing table in DELETE"@))
        } else {
            match conditions_of(selection) {
                Err(x) => Err(x),
                Ok(cs) => Ok(CommandV::Delete { table: from[0], conditions: cs }),
            }
        },
        SqlStatementV::Other(text) => Err(CmdErrorV::Unsupported(text)),
    }
}

/// What parsing a text gives, for a given outcome of the SQL parser.
pub open spec fn parse_outcome(parsed: Result<Seq<SqlStatementV>, Seq<char>>) -> Result<CommandV, CmdErrorV> {
    match parsed {
        Err(msg) => Err(CmdErrorV::Syntax(msg)),
        Ok(stmts) => if stmts.len() == 0 {
            Err(CmdErrorV::Empty)
        } else {
            command_of(stmts[0])
        },
    }
}

pub open spec fn cmd_result_view(r: Result<Command, CmdError>) -> Result<CommandV, CmdErrorV> {
    match r {
        Ok(c) => Ok(c@),
        Err(e) => Err(e@),
    }
}

pub open spec fn value_result_view(r: Result<Value, CmdError>) -> Result<ValueV, CmdErrorV> {
    match r {
        Ok(v) => Ok(v@),
        Err(e) => Err(e@),
    }
}

pub open spec fn condition_result_view(r: Result<Condition, CmdError>) -> Result<ConditionV, CmdErrorV> {
    match r {
        Ok(c) => Ok(c@),
        Err(e) => Err(e@),
    }
}

pub open spec fn conditions_result_view(r: Result<Vec<Condition>, CmdError>) -> Result<Seq<ConditionV>, CmdErrorV> {
    match r {
        Ok(c) => Ok(conditions_view(c@)),
        Err(e) => Err(e@),
    }
}

/// The value of a literal expression.
pub fn convert_value(expr: &SqlExpr) -> (r: Result<Value, CmdError>)
    ensures
        value_result_view(r) == value_of_expr(expr@),
{
    match &expr.node {
        SqlNode::Number(n) => match parse_i32_str(n.as_str()) {
            Some(i) => Ok(Value::Int(i)),
            None => Err(CmdError::Syntax(cat2("invalid integer: ", n.as_str()))),
        },
        SqlNode::Quoted(s) => Ok(Value::VarChar(s.clone())),
        _ => Err(CmdError::UnsupportedExpr(expr.debug.clone())),
    }
}

fn comparison_operator(op: &SqlBinOp) -> (r: Operator)
    ensures
        r == operator_of(op@),
{
    match op {
        SqlBinOp::NotEq => Operator::Ne,
        SqlBinOp::Lt => Operator::Lt,
        SqlBinOp::Gt => Operator::Gt,
        SqlBinOp::LtEq => Operator::Le,
        SqlBinOp::GtEq => Operator::Ge,
        _ => Operator::Eq,
    }
}

/// The condition an expression stands for.
pub fn convert_expr(expr: &SqlExpr) -> (r: Result<Condition, CmdError>)
    ensures
        condition_result_view(r) == condition_of_expr(expr@),
    decreases expr,
{
    match &expr.node {
        SqlNode::BinaryOp { left, op, right } => match op {
            SqlBinOp::And | SqlBinOp::Or => {
                let l = match convert_expr(left) {
                    Ok(c) => c,
                    Err(e) => return Err(e),
                };
                let r = match convert_expr(right) {
                    Ok(c) => c,
                    Err(e) => return Err(e),
                };
                match op {
                    SqlBinOp::And => Ok(Condition::And(Box::new(l), Box::new(r))),
                    _ => Ok(Condition::Or(Box::new(l), Box::new(r))),
                }
            },
            SqlBinOp::Other(d) => Err(CmdError::UnsupportedExpr(d.clone())),
            _ => match &left.node {
                SqlNode::Identifier(attr) => match convert_value(right) {
                    Ok(v) => Ok(Condition::Compare { attr: attr.clone(), value: v, op: comparison_operator(op) }),
                    Err(e) => Err(e),
                },
                _ => Err(CmdError::UnsupportedExpr(left.debug.clone())),
            },
        },
        SqlNode::Nested(inner) => convert_expr(inner),
        _ => Err(CmdError::UnsupportedExpr(expr.debug.clone())),
    }
}

/// The conditions of an optional `WHERE`.
fn convert_selection(sel: &Option<SqlExpr>) -> (r: Result<Vec<Condition>, CmdError>)
    ensures
        conditions_result_view(r) == conditions_of(opt_expr_view(*sel)),
{
    match sel {
        None => {
            let v: Vec<Condition> = Vec::new();
            proof { assert(conditions_view(v@) =~= Seq::<ConditionV>::empty()); }
            Ok(v)
        },
        Some(e) => match convert_expr(e) {
            Ok(c) => {
                let mut v: Vec<Condition> = Vec::new();
                v.push(c);
                proof { assert(conditions_view(v@) =~= seq![c@]); }
                Ok(v)
            },
            Err(x) => Err(x),
        },
    }
}

/// The column type a SQL type stands for.
pub fn convert_data_type(dt: &SqlDataType) -> (r: Result<Type, CmdError>)
    ensures
        match r {
            Ok(t) => type_of(dt@) == Ok::<Type, CmdErrorV>(t),
            Err(e) => type_of(dt@) == Err::<Type, CmdErrorV>(e@),
        },
{
    match dt {
        SqlDataType::Int(_) => Ok(Type::Int),
        SqlDataType::Integer(_) => Ok(Type::Int),
        SqlDataType::Varchar { length, debug } => match length {
            Some(SqlCharLength::Integer { length: n, .. }) => Ok(Type::VarChar(*n as usize)),
            _ => Err(CmdError::Unsupported(cat2("data type ", debug.as_str()))),
        },
        SqlDataType::Other(d) => Err(CmdError::Unsupported(cat2("data type ", d.as_str()))),
    }
}

/// The column a name stands for: the value of its last part, or empty for a
/// name without parts.
pub fn column_name(parts: &Vec<SqlNamePart>) -> (r: String)
    ensures
        r@ == column_name_spec(name_view(parts@)),
{
    if parts.len() == 0 {
        String::new()
    } else {
        match &parts[parts.len() - 1] {
            SqlNamePart::Identifier(v) => v.clone(),
            SqlNamePart::Function(t) => t.clone(),
        }
    }
}

/// The column an assignment sets.
pub fn assignment_column(t: &SqlAssignTarget) -> (r: String)
    ensures
        r@ == assigned_column(t@),
{
    match t {
        SqlAssignTarget::Column(parts) => column_name(parts),
        SqlAssignTarget::Tuple(text) => text.clone(),
    }
}

fn column_names(cols: &Vec<Vec<SqlNamePart>>) -> (r: Vec<String>)
    ensures
        crate::sql::texts_view(r@) == names_view(cols@).map_values(|n: Seq<SqlNamePartV>| column_name_spec(n)),
{
    let mut out: Vec<String> = Vec::new();
    let mut i: usize = 0;
    while i < cols.len()
        invariant
            i <= cols@.len(),
            crate::sql::texts_view(out@) =~= names_view(cols@).take(i as int).map_values(|n: Seq<SqlNamePartV>| column_name_spec(n)),
        decreases cols@.len() - i,
    {
        let ghost p = out@;
        let c = column_name(&cols[i]);
        out.push(c);
        assert(crate::sql::texts_view(out@) =~= crate::sql::texts_view(p).push(c@));
        assert(names_view(cols@).take(i + 1) =~= names_view(cols@).take(i as int).push(name_view(cols@[i as int]@)));
        i = i + 1;
    }
    assert(names_view(cols@).take(i as int) =~= names_view(cols@));
    out
}

fn convert_columns(cols: &Vec<SqlColumnDef>) -> (r: Result<Vec<Attr>, CmdError>)
    ensures
        match r {
            Ok(v) => attrs_of_columns(cols@.map_values(|c: SqlColumnDef| c@)) == Ok::<Seq<AttrV>, CmdErrorV>(v@.map_values(|a: Attr| a@)),
            Err(e) => attrs_of_columns(cols@.map_values(|c: SqlColumnDef| c@)) == Err::<Seq<AttrV>, CmdErrorV>(e@),
        },
{
    let ghost s = cols@.map_values(|c: SqlColumnDef| c@);
    let ghost f = |c: SqlColumnDefV| attr_of_column(c);
    let mut out: Vec<Attr> = Vec::new();
    assert(out@.map_values(|a: Attr| a@) =~= Seq::<AttrV>::empty());
    let mut i: usize = 0;
    while i < cols.len()
        invariant
            i <= cols@.len(),
            s == cols@.map_values(|c: SqlColumnDef| c@),
            f == (|c: SqlColumnDefV| attr_of_column(c)),
            all_ok(s.take(i as int), f) == Ok::<Seq<AttrV>, CmdErrorV>(out@.map_values(|a: Attr| a@)),
        decreases cols@.len() - i,
    {
        proof { lemma_all_ok_step(s, f, i as int); }
        let col = &cols[i];
        match convert_data_type(&col.data_type) {
            Ok(t) => {
                let ghost prev = out@;
                out.push(Attr { name: col.name.clone(), data_type: t });
                assert(out@.map_values(|a: Attr| a@) =~= prev.map_values(|a: Attr| a@).push(AttrV { name: col.name@, data_type: t }));
            },
            Err(e) => {
                proof { lemma_all_ok_err(s, f, i as int + 1); }
                return Err(e);
            },
        }
        i = i + 1;
    }
    assert(s.take(i as int) =~= s);
    Ok(out)
}

pub open spec fn values_view(v: Seq<Value>) -> Seq<ValueV> {
    v.map_values(|x: Value| x@)
}

pub open spec fn value_rows_view(v: Seq<Vec<Value>>) -> Seq<Seq<ValueV>> {
    v.map_values(|r: Vec<Value>| values_view(r@))
}

fn convert_row(row: &Vec<SqlExpr>) -> (r: Result<Vec<Value>, CmdError>)
    ensures
        match r {
            Ok(v) => row_values(row@.map_values(|e: SqlExpr| e@)) == Ok::<Seq<ValueV>, CmdErrorV>(values_view(v@)),
            Err(e) => row_values(row@.map_values(|e: SqlExpr| e@)) == Err::<Seq<ValueV>, CmdErrorV>(e@),
        },
{
    let ghost s = row@.map_values(|e: SqlExpr| e@);
    let ghost f = |e: SqlExprV| value_of_expr(e);
    let mut out: Vec<Value> = Vec::new();
    assert(values_view(out@) =~= Seq::<ValueV>::empty());
    let mut i: usize = 0;
    while i < row.len()
        invariant
            i <= row@.len(),
            s == row@.map_values(|e: SqlExpr| e@),
            f == (|e: SqlExprV| value_of_expr(e)),
            all_ok(s.take(i as int), f) == Ok::<Seq<ValueV>, CmdErrorV>(values_view(out@)),
        decreases row@.len() - i,
    {
        proof { lemma_all_ok_step(s, f, i as int); }
        match convert_value(&row[i]) {
            Ok(v) => {
                let ghost prev = out@;
                out.push(v);
                assert(values_view(out@) =~= values_view(prev).push(v@));
            },
            Err(e) => {
                proof { lemma_all_ok_err(s, f, i as int + 1); }
                return Err(e);
            },
        }
        i = i + 1;
    }
    assert(s.take(i as int) =~= s);
    Ok(out)
}

/// Every row of the source of an `INSERT`.
pub fn extract_insert_rows(source: &SqlQuery) -> (r: Result<Vec<Vec<Value>>, CmdError>)
    ensures
        match r {
            Ok(v) => insert_rows_of(source@) == Ok::<Seq<Seq<ValueV>>, CmdErrorV>(value_rows_view(v@)),
            Err(e) => insert_rows_of(source@) == Err::<Seq<Seq<ValueV>>, CmdErrorV>(e@),
        },
{
    let rows = match source {
        SqlQuery::Values(rows) => rows,
        _ => return Err(CmdError::Unsupported("INSERT without VALUES".to_owned())),
    };
    let ghost s = rows@.map_values(|r: Vec<SqlExpr>| r@.map_values(|e: SqlExpr| e@));
    let ghost f = |r: Seq<SqlExprV>| row_values(r);
    assert(s =~= crate::sql::rows_view(rows@));
    let mut out: Vec<Vec<Value>> = Vec::new();
    assert(value_rows_view(out@) =~= Seq::<Seq<ValueV>>::empty());
    let mut i: usize = 0;
    while i < rows.len()
        invariant
            i <= rows@.len(),
            s == rows@.map_values(|r: Vec<SqlExpr>| r@.map_values(|e: SqlExpr| e@)),
            f == (|r: Seq<SqlExprV>| row_values(r)),
            insert_rows_of(source@) == all_ok(s, f),
            all_ok(s.take(i as int), f) == Ok::<Seq<Seq<ValueV>>, CmdErrorV>(value_rows_view(out@)),
        decreases rows@.len() - i,
    {
        proof { lemma_all_ok_step(s, f, i as int); }
        match convert_row(&rows[i]) {
            Ok(v) => {
                let ghost prev = out@;
                out.push(v);
                assert(value_rows_view(out@) =~= value_rows_view(prev).push(values_view(v@)));
            },
            Err(e) => {
                proof { lemma_all_ok_err(s, f, i as int + 1); }
                return Err(e);
            },
        }
        i = i + 1;
    }
    assert(s.take(i as int) =~= s);
    Ok(out)
}

fn convert_items(items: &Vec<SqlSelectItem>) -> (r: Result<Vec<String>, CmdError>)
    ensures
        match r {
            Ok(v) => attrs_of_items(items@.map_values(|i: SqlSelectItem| i@)) == Ok::<Seq<Seq<char>>, CmdErrorV>(crate::sql::texts_view(v@)),
            Err(e) => attrs_of_items(items@.map_values(|i: SqlSelectItem| i@)) == Err::<Seq<Seq<char>>, CmdErrorV>(e@),
        },
{
    let ghost s = items@.map_values(|i: SqlSelectItem| i@);
    let ghost f = |i: SqlSelectItemV| attr_of_item(i);
    let mut out: Vec<String> = Vec::new();
    assert(crate::sql::texts_view(out@) =~= Seq::<Seq<char>>::empty());
    let mut i: usize = 0;
    while i < items.len()
        invariant
            i <= items@.len(),
            s == items@.map_values(|i: SqlSelectItem| i@),
            f == (|i: SqlSelectItemV| attr_of_item(i)),
            all_ok(s.take(i as int), f) == Ok::<Seq<Seq<char>>, CmdErrorV>(crate::sql::texts_view(out@)),
        decreases items@.len() - i,
    {
        proof { lemma_all_ok_step(s, f, i as int); }
        let name: String = match &items[i] {
            SqlSelectItem::Unnamed { expr, debug } => match &expr.node {
                SqlNode::Identifier(n) => n.clone(),
                _ => {
                    proof { lemma_all_ok_err(s, f, i as int + 1); }
                    return Err(CmdError::UnsupportedExpr(debug.clone()));
                },
            },
            SqlSelectItem::Wildcard => "*".to_owned(),
            SqlSelectItem::Other(d) => {
                proof { lemma_all_ok_err(s, f, i as int + 1); }
                return Err(CmdError::UnsupportedExpr(d.clone()));
            },
        };
        let ghost prev = out@;
        out.push(name);
        assert(crate::sql::texts_view(out@) =~= crate::sql::texts_view(prev).push(name@));
        i = i + 1;
    }
    assert(s.take(i as int) =~= s);
    Ok(out)
}

fn convert_assignments(assignments: &Vec<SqlAssignment>) -> (r: Result<Vec<Data>, CmdError>)
    ensures
        match r {
            Ok(v) => updates_of(assignments@.map_values(|a: SqlAssignment| a@)) == Ok::<Seq<DataV>, CmdErrorV>(data_view(v@)),
            Err(e) => updates_of(assignments@.map_values(|a: SqlAssignment| a@)) == Err::<Seq<DataV>, CmdErrorV>(e@),
        },
{
    let ghost s = assignments@.map_values(|a: SqlAssignment| a@);
    let ghost f = |a: SqlAssignmentV| data_of_assignment(a);
    let mut out: Vec<Data> = Vec::new();
    assert(data_view(out@) =~= Seq::<DataV>::empty());
    let mut i: usize = 0;
    while i < assignments.len()
        invariant
            i <= assignments@.len(),
            s == assignments@.map_values(|a: SqlAssignment| a@),
            f == (|a: SqlAssignmentV| data_of_assignment(a)),
            all_ok(s.take(i as int), f) == Ok::<Seq<DataV>, CmdErrorV>(data_view(out@)),
        decreases assignments@.len() - i,
    {
        proof { lemma_all_ok_step(s, f, i as int); }
        let a = &assignments[i];
        match convert_value(&a.value) {
            Ok(v) => {
                let ghost prev = out@;
                let d = Data { name: assignment_column(&a.target), value: v };
                out.push(d);
                assert(data_view(out@) =~= data_view(prev).push(d@));
            },
            Err(e) => {
                proof { lemma_all_ok_err(s, f, i as int + 1); }
                return Err(e);
            },
        }
        i = i + 1;
    }
    assert(s.take(i as int) =~= s);
    Ok(out)
}

/// The `Select` command of a query.
pub fn convert_select(query: &SqlQuery) -> (r: Result<Command, CmdError>)
    ensures
        cmd_result_view(r) == select_of(query@),
{
    match query {
        SqlQuery::Select { projection, from, selection } => {
            if from.len() == 0 {
                return Err(CmdError::Syntax("missing FROM".to_owned()));
            }
            let table = from[0].clone();
            let attrs = match convert_items(projection) {
                Ok(a) => a,
                Err(e) => return Err(e),
            };
            let conditions = match convert_selection(selection) {
                Ok(c) => c,
                Err(e) => return Err(e),
            };
            Ok(Command::Select { table, attrs, conditions })
        },
        _ => Err(CmdError::Unsupported("non-SELECT query".to_owned())),
    }
}

pub open spec fn opt_query_view(q: Option<SqlQuery>) -> Option<SqlQueryV> {
    match q {
        Some(x) => Some(x@),
        None => None,
    }
}

fn convert_insert(table: &String, columns: &Vec<String>, source: &Option<SqlQuery>) -> (r: Result<Command, CmdError>)
    ensures
        cmd_result_view(r) == insert_of(table@, crate::sql::texts_view(columns@), opt_query_view(*source)),
{
    let query = match source {
        Some(q) => q,
        None => return Err(CmdError::Syntax("INSERT requires VALUES".to_owned())),
    };
    let rows = match extract_insert_rows(query) {
        Ok(rows) => rows,
        Err(e) => return Err(e),
    };
    if rows.len() == 0 {
        return Err(CmdError::Syntax("INSERT requires a row of values".to_owned()));
    }
    let row = &rows[0];
    assert(values_view(row@) == value_rows_view(rows@)[0]);
    if row.len() != columns.len() {
        return Err(CmdError::Syntax("column/value count mismatch".to_owned()));
    }
    let ghost names = crate::sql::texts_view(columns@);
    let ghost vals = values_view(row@);
    let mut data: Vec<Data> = Vec::new();
    let mut i: usize = 0;
    while i < columns.len()
        invariant
            i <= columns@.len(),
            row@.len() == columns@.len(),
            names == crate::sql::texts_view(columns@),
            vals == values_view(row@),
            data_view(data@) =~= zip_fields(names, vals).take(i as int),
        decreases columns@.len() - i,
    {
        let d = Data { name: columns[i].clone(), value: row[i].clone() };
        let ghost prev = data@;
        data.push(d);
        assert(data_view(data@) =~= data_view(prev).push(d@));
        i = i + 1;
    }
    assert(zip_fields(names, vals).take(i as int) =~= zip_fields(names, vals));
    Ok(Command::Insert(Entity { of: table.clone(), data }))
}

/// The command a statement stands for, or why there is none.
pub fn convert_statement(stmt: &SqlStatement) -> (r: Result<Command, CmdError>)
    ensures
        cmd_result_view(r) == command_of(stmt@),
{
    match stmt {
        SqlStatement::CreateTable { name, columns } => match convert_columns(columns) {
            Ok(attrs) => Ok(Command::CreateTable(Table { name: name.clone(), attrs })),
            Err(e) => Err(e),
        },
        SqlStatement::ShowTables => Ok(Command::ShowTables),
        SqlStatement::Drop { names } => {
            if names.len() == 0 {
                Err(CmdError::Syntax("missing table name".to_owned()))
            } else {
                Ok(Command::DropTable(names[0].clone()))
            }
        },
        SqlStatement::Insert { table, columns, source } => {
            let names = column_names(columns);
            convert_insert(table, &names, source)
        },
        SqlStatement::Query(q) => convert_select(q),
        SqlStatement::Update { table, assignments, selection } => {
            let updates = match convert_assignments(assignments) {
                Ok(u) => u,
                Err(e) => return Err(e),
            };
            let conditions = match convert_selection(selection) {
                Ok(c) => c,
                Err(e) => return Err(e),
            };
            Ok(Command::Update { table: table.clone(), updates, conditions })
        },
        SqlStatement::Delete { from, selection } => {
            if from.len() == 0 {
                return Err(CmdError::Syntax("missing table in DELETE".to_owned()));
            }
            let table = from[0].clone();
            let conditions = match convert_selection(selection) {
                Ok(c) => c,
                Err(e) => return Err(e),
            };
            Ok(Command::Delete { table, conditions })
        },
        SqlStatement::Other(text) => Err(CmdError::Unsupported(text.clone())),
    }
}

/// Parses the first SQL statement of `input` into a command.
pub fn parse_cmd(input: &str) -> (r: Result<Command, CmdError>)
    ensures
        cmd_result_view(r) == parse_outcome(sql_parse(input@)),
{
    match parse_sql(input) {
        Err(msg) => Err(CmdError::Syntax(msg)),
        Ok(stmts) => {
            if stmts.len() == 0 {
                Err(CmdError::Empty)
            } else {
                convert_statement(&stmts[0])
            }
        },
    }
}

/// The query `SELECT * FROM table WHERE col OP lit` as the SQL parser gives it.
pub open spec fn where_query(table: Seq<char>, col: Seq<char>, op: SqlBinOpV, lit: SqlNodeV, debugs: (Seq<char>, Seq<char>, Seq<char>)) -> SqlQueryV {
    SqlQueryV::Select {
        projection: seq![SqlSelectItemV::Wildcard],
        from: seq![table],
        selection: Some(SqlExprV {
            node: SqlNodeV::BinaryOp {
                left: Box::new(SqlExprV { node: SqlNodeV::Identifier(col), debug: debugs.0 }),
                op,
                right: Box::new(SqlExprV { node: lit, debug: debugs.1 }),
            },
            debug: debugs.2,
        }),
    }
}

/// A one-field row of table `table`: column `col` holding `v`.
pub open spec fn single_field_row(table: Seq<char>, col: Seq<char>, v: ValueV) -> EntityV {
    EntityV { of: table, data: seq![DataV { name: col, value: v }] }
}

proof fn lemma_wildcard_items()
    ensures
        attrs_of_items(seq![SqlSelectItemV::Wildcard]) == Ok::<Seq<Seq<char>>, CmdErrorV>(seq!["*"@]),
{
    let s = seq![SqlSelectItemV::Wildcard];
    let f = |i: SqlSelectItemV| attr_of_item(i);
    assert(s.drop_last() =~= Seq::<SqlSelectItemV>::empty());
    assert(all_ok(s.drop_last(), f) == Ok::<Seq<Seq<char>>, CmdErrorV>(Seq::empty()));
    assert(s.last() == SqlSelectItemV::Wildcard);
    assert(f(s.last()) == Ok::<Seq<char>, CmdErrorV>("*"@));
    assert(Seq::<Seq<char>>::empty().push("*"@) =~= seq!["*"@]);
    assert(all_ok(s, f) == Ok::<Seq<Seq<char>>, CmdErrorV>(seq!["*"@]));
}

/// A WHERE comparison of a column with an integer literal means what SQL
/// says: a row whose value for that column is the integer `m` satisfies the
/// parsed condition exactly when `m > n`, `m >= n`, `m < n`, `m <= n`,
/// `m = n` or `m <> n`, as the operator written; a NULL never does.
pub proof fn law_where_integer_comparison(
    table: Seq<char>,
    col: Seq<char>,
    text: Seq<char>,
    n: i32,
    op: SqlBinOpV,
    m: i32,
    debugs: (Seq<char>, Seq<char>, Seq<char>),
)
    requires
        parse_i32(text) == Some(n),
        op is Gt || op is GtEq || op is Lt || op is LtEq || op is Eq || op is NotEq,
    ensures
        select_of(where_query(table, col, op, SqlNodeV::Number(text), debugs)) matches Ok(CommandV::Select { table: t, attrs, conditions })
            && t == table && attrs == seq!["*"@] && conditions.len() == 1
            && row_matches(single_field_row(table, col, ValueV::Int(m)), conditions[0]) == match op {
                SqlBinOpV::Gt => m > n,
                SqlBinOpV::GtEq => m >= n,
                SqlBinOpV::Lt => m < n,
                SqlBinOpV::LtEq => m <= n,
                SqlBinOpV::Eq => m == n,
                _ => m != n,
            }
            && !row_matches(single_field_row(table, col, ValueV::Null), conditions[0]),
{
    let q = where_query(table, col, op, SqlNodeV::Number(text), debugs);
    lemma_wildcard_items();
    assert(seq!["*"@].len() == 1);
}

/// A WHERE comparison of a column with a quoted string: `=` holds exactly for
/// the same string, `<>` exactly for a different one, and no other operator
/// holds for strings; a NULL satisfies none.
pub proof fn law_where_string_comparison(
    table: Seq<char>,
    col: Seq<char>,
    lit: Seq<char>,
    op: SqlBinOpV,
    x: Seq<char>,
    debugs: (Seq<char>, Seq<char>, Seq<char>),
)
    requires
        op is Gt || op is GtEq || op is Lt || op is LtEq || op is Eq || op is NotEq,
    ensures
        select_of(where_query(table, col, op, SqlNodeV::Quoted(lit), debugs)) matches Ok(CommandV::Select { table: t, attrs, conditions })
            && t == table && conditions.len() == 1
            && row_matches(single_field_row(table, col, ValueV::VarChar(x)), conditions[0]) == match op {
                SqlBinOpV::Eq => x == lit,
                SqlBinOpV::NotEq => x != lit,
                _ => false,
            }
            && !row_matches(single_field_row(table, col, ValueV::Null), conditions[0]),
{
    lemma_wildcard_items();
}

} // verus!

//! The statements that the SQL front end reads, as plain values.
//!
//! Parsing SQL text is done by the `sqlparser` crate; `parse_sql` hands back its
//! syntax tree in the shapes below, which hold exactly what the command
//! conversion reads: names as text, literals as text, and, for every node that
//! may be reported as unsupported, the text the error message shows.

use vstd::prelude::*;
use sqlparser::ast as sp;

verus! {

/// A binary operator of a condition.
pub enum SqlBinOp {
    And,
    Or,
    Eq,
    NotEq,
    Lt,
    Gt,
    LtEq,
    GtEq,
    /// Any other operator, with its debug text.
    Other(String),
}

pub enum SqlBinOpV {
    And,
    Or,
    Eq,
    NotEq,
    Lt,
    Gt,
    LtEq,
    GtEq,
    Other(Seq<char>),
}

impl View for SqlBinOp {
    type V = SqlBinOpV;

    open spec fn view(&self) -> SqlBinOpV {
        match self {
            SqlBinOp::And => SqlBinOpV::And,
            SqlBinOp::Or => SqlBinOpV::Or,
            SqlBinOp::Eq => SqlBinOpV::Eq,
            SqlBinOp::NotEq => SqlBinOpV::NotEq,
            SqlBinOp::Lt => SqlBinOpV::Lt,
            SqlBinOp::Gt => SqlBinOpV::Gt,
            SqlBinOp::LtEq => SqlBinOpV::LtEq,
            SqlBinOp::GtEq => SqlBinOpV::GtEq,
            SqlBinOp::Other(d) => SqlBinOpV::Other(d@),
        }
    }
}

/// An expression node.
pub enum SqlNode {
    /// A plain identifier, by its unquoted value.
    Identifier(String),
    /// A numeric literal, as written.
    Number(String),
    /// A single-quoted string literal, without its quotes.
    Quoted(String),
    BinaryOp { left: Box<SqlExpr>, op: SqlBinOp, right: Box<SqlExpr> },
    /// A parenthesised expression.
    Nested(Box<SqlExpr>),
    /// Any other expression.
    Other,
}

/// An expression with its debug text.
pub struct SqlExpr {
    pub node: SqlNode,
    pub debug: String,
}

pub enum SqlNodeV {
    Identifier(Seq<char>),
    Number(Seq<char>),
    Quoted(Seq<char>),
    BinaryOp { left: Box<SqlExprV>, op: SqlBinOpV, right: Box<SqlExprV> },
    Nested(Box<SqlExprV>),
    Other,
}

pub struct SqlExprV {
    pub node: SqlNodeV,
    pub debug: Seq<char>,
}

impl View for SqlExpr {
    type V = SqlExprV;

    open spec fn view(&self) -> SqlExprV
        decreases self,
    {
        let node = match &self.node {
            SqlNode::Identifier(s) => SqlNodeV::Identifier(s@),
            SqlNode::Number(s) => SqlNodeV::Number(s@),
            SqlNode::Quoted(s) => SqlNodeV::Quoted(s@),
            SqlNode::BinaryOp { left, op, right } => SqlNodeV::BinaryOp {
                left: Box::new((**left).view()),
                op: op@,
                right: Box::new((**right).view()),
            },
            SqlNode::Nested(inner) => SqlNodeV::Nested(Box::new((**inner).view())),
            SqlNode::Other => SqlNodeV::Other,
        };
        SqlExprV { node, debug: self.debug@ }
    }
}

/// The unit of a character length.
#[derive(Clone, Copy, PartialEq, Eq, Structural)]
pub enum SqlCharUnit {
    Characters,
    Octets,
}

/// The length of a character type: a number with an optional unit, or `MAX`.
pub enum SqlCharLength {
    Integer { length: u64, unit: Option<SqlCharUnit> },
    Max,
}

pub enum SqlCharLengthV {
    Integer { length: u64, unit: Option<SqlCharUnit> },
    Max,
}

impl View for SqlCharLength {
    type V = SqlCharLengthV;

    open spec fn view(&self) -> SqlCharLengthV {
        match self {
            SqlCharLength::Integer { length, unit } => SqlCharLengthV::Integer { length: *length, unit: *unit },
            SqlCharLength::Max => SqlCharLengthV::Max,
        }
    }
}

/// A column type as written in `CREATE TABLE`.
pub enum SqlDataType {
    /// `INT`, with its display width if written.
    Int(Option<u64>),
    /// `INTEGER`, with its display width if written.
    Integer(Option<u64>),
    /// `VARCHAR`, with its length if written, and the debug text of the type.
    Varchar { length: Option<SqlCharLength>, debug: String },
    /// Any other type, with its debug text.
    Other(String),
}

pub enum SqlDataTypeV {
    Int(Option<u64>),
    Integer(Option<u64>),
    Varchar { length: Option<SqlCharLengthV>, debug: Seq<char> },
    Other(Seq<char>),
}

impl View for SqlDataType {
    type V = SqlDataTypeV;

    open spec fn view(&self) -> SqlDataTypeV {
        match self {
            SqlDataType::Int(w) => SqlDataTypeV::Int(*w),
            SqlDataType::Integer(w) => SqlDataTypeV::Integer(*w),
            SqlDataType::Varchar { length, debug } => SqlDataTypeV::Varchar {
                length: match length {
                    Some(l) => Some(l@),
                    None => None,
                },
                debug: debug@,
            },
            SqlDataType::Other(d) => SqlDataTypeV::Other(d@),
        }
    }
}

/// A part of a qualified name: an identifier by its value, or a function
/// that yields one, by its text.
pub enum SqlNamePart {
    Identifier(String),
    Function(String),
}

pub enum SqlNamePartV {
    Identifier(Seq<char>),
    Function(Seq<char>),
}

impl View for SqlNamePart {
    type V = SqlNamePartV;

    open spec fn view(&self) -> SqlNamePartV {
        match self {
            SqlNamePart::Identifier(v) => SqlNamePartV::Identifier(v@),
            SqlNamePart::Function(t) => SqlNamePartV::Function(t@),
        }
    }
}

pub open spec fn name_view(v: Seq<SqlNamePart>) -> Seq<SqlNamePartV> {
    v.map_values(|p: SqlNamePart| p@)
}

pub open spec fn names_view(v: Seq<Vec<SqlNamePart>>) -> Seq<Seq<SqlNamePartV>> {
    v.map_values(|n: Vec<SqlNamePart>| name_view(n@))
}

/// A column definition of `CREATE TABLE`.
pub struct SqlColumnDef {
    pub name: String,
    pub data_type: SqlDataType,
}

pub struct SqlColumnDefV {
    pub name: Seq<char>,
    pub data_type: SqlDataTypeV,
}

impl View for SqlColumnDef {
    type V = SqlColumnDefV;

    open spec fn view(&self) -> SqlColumnDefV {
        SqlColumnDefV { name: self.name@, data_type: self.data_type@ }
    }
}

/// An item of a `SELECT` list.
pub enum SqlSelectItem {
    /// An expression without alias, with the debug text of the item.
    Unnamed { expr: SqlExpr, debug: String },
    /// `*`.
    Wildcard,
    /// Any other item, with its debug text.
    Other(String),
}

pub enum SqlSelectItemV {
    Unnamed { expr: SqlExprV, debug: Seq<char> },
    Wildcard,
    Other(Seq<char>),
}

impl View for SqlSelectItem {
    type V = SqlSelectItemV;

    open spec fn view(&self) -> SqlSelectItemV {
        match self {
            SqlSelectItem::Unnamed { expr, debug } => SqlSelectItemV::Unnamed { expr: expr@, debug: debug@ },
            SqlSelectItem::Wildcard => SqlSelectItemV::Wildcard,
            SqlSelectItem::Other(d) => SqlSelectItemV::Other(d@),
        }
    }
}

/// The body of a query.
pub enum SqlQuery {
    /// A `SELECT`: its items, the tables of its `FROM` by their text, and its `WHERE`.
    Select { projection: Vec<SqlSelectItem>, from: Vec<String>, selection: Option<SqlExpr> },
    /// A `VALUES` list, row by row.
    Values(Vec<Vec<SqlExpr>>),
    /// Any other query body.
    Other,
}

pub enum SqlQueryV {
    Select { projection: Seq<SqlSelectItemV>, from: Seq<Seq<char>>, selection: Option<SqlExprV> },
    Values(Seq<Seq<SqlExprV>>),
    Other,
}

pub open spec fn exprs_view(v: Seq<SqlExpr>) -> Seq<SqlExprV> {
    v.map_values(|e: SqlExpr| e@)
}

pub open spec fn rows_view(v: Seq<Vec<SqlExpr>>) -> Seq<Seq<SqlExprV>> {
    v.map_values(|r: Vec<SqlExpr>| exprs_view(r@))
}

pub open spec fn opt_expr_view(e: Option<SqlExpr>) -> Option<SqlExprV> {
    match e {
        Some(x) => Some(x@),
        None => None,
    }
}

pub open spec fn texts_view(v: Seq<String>) -> Seq<Seq<char>> {
    v.map_values(|s: String| s@)
}

impl View for SqlQuery {
    type V = SqlQueryV;

    open spec fn view(&self) -> SqlQueryV {
        match self {
            SqlQuery::Select { projection, from, selection } => SqlQueryV::Select {
                projection: projection@.map_values(|i: SqlSelectItem| i@),
                from: texts_view(from@),
                selection: opt_expr_view(*selection),
            },
            SqlQuery::Values(rows) => SqlQueryV::Values(rows_view(rows@)),
            SqlQuery::Other => SqlQueryV::Other,
        }
    }
}

/// The target of an assignment: a column by the parts of its name, or a
/// tuple of columns by its text.
pub enum SqlAssignTarget {
    Column(Vec<SqlNamePart>),
    Tuple(String),
}

pub enum SqlAssignTargetV {
    Column(Seq<SqlNamePartV>),
    Tuple(Seq<char>),
}

impl View for SqlAssignTarget {
    type V = SqlAssignTargetV;

    open spec fn view(&self) -> SqlAssignTargetV {
        match self {
            SqlAssignTarget::Column(n) => SqlAssignTargetV::Column(name_view(n@)),
            SqlAssignTarget::Tuple(t) => SqlAssignTargetV::Tuple(t@),
        }
    }
}

/// An assignment of `UPDATE ... SET`: its target, and the value.
pub struct SqlAssignment {
    pub target: SqlAssignTarget,
    pub value: SqlExpr,
}

pub struct SqlAssignmentV {
    pub target: SqlAssignTargetV,
    pub value: SqlExprV,
}

impl View for SqlAssignment {
    type V = SqlAssignmentV;

    open spec fn view(&self) -> SqlAssignmentV {
        SqlAssignmentV { target: self.target@, value: self.value@ }
    }
}

/// A statement. Table names are held as the parser prints them.
pub enum SqlStatement {
    CreateTable { name: String, columns: Vec<SqlColumnDef> },
    ShowTables,
    Drop { names: Vec<String> },
    Insert { table: String, columns: Vec<Vec<SqlNamePart>>, source: Option<SqlQuery> },
    Query(SqlQuery),
    Update { table: String, assignments: Vec<SqlAssignment>, selection: Option<SqlExpr> },
    Delete { from: Vec<String>, selection: Option<SqlExpr> },
    /// Any other statement, with its SQL text.
    Other(String),
}

pub enum SqlStatementV {
    CreateTable { name: Seq<char>, columns: Seq<SqlColumnDefV> },
    ShowTables,
    Drop { names: Seq<Seq<char>> },
    Insert { table: Seq<char>, columns: Seq<Seq<SqlNamePartV>>, source: Option<SqlQueryV> },
    Query(SqlQueryV),
    Update { table: Seq<char>, assignments: Seq<SqlAssignmentV>, selection: Option<SqlExprV> },
    Delete { from: Seq<Seq<char>>, selection: Option<SqlExprV> },
    Other(Seq<char>),
}

impl View for SqlStatement {
    type V = SqlStatementV;

    open spec fn view(&self) -> SqlStatementV {
        match self {
            SqlStatement::CreateTable { name, columns } => SqlStatementV::CreateTable {
                name: name@,
                columns: columns@.map_values(|c: SqlColumnDef| c@),
            },
            SqlStatement::ShowTables => SqlStatementV::ShowTables,
            SqlStatement::Drop { names } => SqlStatementV::Drop { names: texts_view(names@) },
            SqlStatement::Insert { table, columns, source } => SqlStatementV::Insert {
                table: table@,
                columns: names_view(columns@),
                source: match source {
                    Some(q) => Some(q@),
                    None => None,
                },
            },
            SqlStatement::Query(q) => SqlStatementV::Query(q@),
            SqlStatement::Update { table, assignments, selection } => SqlStatementV::Update {
                table: table@,
                assignments: assignments@.map_values(|a: SqlAssignment| a@),
                selection: opt_expr_view(*selection),
            },
            SqlStatement::Delete { from, selection } => SqlStatementV::Delete {
                from: texts_view(from@),
                selection: opt_expr_view(*selection),
            },
            SqlStatement::Other(s) => SqlStatementV::Other(s@),
        }
    }
}

pub open spec fn statements_view(v: Seq<SqlStatement>) -> Seq<SqlStatementV> {
    v.map_values(|s: SqlStatement| s@)
}

/// What `sqlparser`'s `Parser::parse_sql` gives for a text under the generic
/// dialect: the statements, or the text of the parse error.
pub uninterp spec fn sql_parse(input: Seq<char>) -> Result<Seq<SqlStatementV>, Seq<char>>;

#[verifier::external_type_specification]
#[verifier::external_body]
pub struct ExSqlParserStatement(sqlparser::ast::Statement);

#[verifier::external_type_specification]
#[verifier::external_body]
pub struct ExSqlParserCreateTable(sqlparser::ast::CreateTable);

#[verifier::external_type_specification]
#[verifier::external_body]
pub struct ExSqlParserDataType(sqlparser::ast::DataType);

#[verifier::external_type_specification]
#[verifier::external_body]
pub struct ExSqlParserCharacterLength(sqlparser::ast::CharacterLength);

#[verifier::external_type_specification]
#[verifier::external_body]
pub struct ExSqlParserInsert(sqlparser::ast::Insert);

#[verifier::external_type_specification]
#[verifier::external_body]
pub struct ExSqlParserObjectName(sqlparser::ast::ObjectName);

#[verifier::external_type_specification]
#[verifier::external_body]
pub struct ExSqlParserQuery(sqlparser::ast::Query);

#[verifier::external_type_specification]
#[verifier::external_body]
pub struct ExSqlParserSelectItem(sqlparser::ast::SelectItem);

#[verifier::external_type_specification]
#[verifier::external_body]
pub struct ExSqlParserUpdate(sqlparser::ast::Update);

#[verifier::external_type_specification]
#[verifier::external_body]
pub struct ExSqlParserAssignment(sqlparser::ast::Assignment);

#[verifier::external_type_specification]
#[verifier::external_body]
pub struct ExSqlParserDelete(sqlparser::ast::Delete);

#[verifier::external_type_specification]
#[verifier::external_body]
pub struct ExSqlParserExpr(sqlparser::ast::Expr);

#[verifier::external_type_specification]
#[verifier::external_body]
pub struct ExSqlParserLiteral(sqlparser::ast::ValueWithSpan);

#[verifier::external_type_specification]
#[verifier::external_body]
pub struct ExSqlParserBinaryOperator(sqlparser::ast::BinaryOperator);

/// Parses `input` with `sqlparser`'s `Parser::parse_sql` under its
/// `GenericDialect`. Claimed: the result, taken by its view, is `sql_parse` of
/// the text; a parse error is handed back as its message.
#[verifier::external_body]
pub(crate) fn parse_sql(input: &str) -> (r: Result<Vec<SqlStatement>, String>)
    ensures
        match r {
            Ok(v) => sql_parse(input@) == Ok::<Seq<SqlStatementV>, Seq<char>>(statements_view(v@)),
            Err(e) => sql_parse(input@) == Err::<Seq<SqlStatementV>, Seq<char>>(e@),
        },
{
    let dialect = sqlparser::dialect::GenericDialect {};
    match sqlparser::parser::Parser::parse_sql(&dialect, input) {
        Ok(stmts) => Ok(stmts.iter().map(statement_of).collect()),
        Err(e) => Err(e.to_string()),
    }
}

/// Converts a `sqlparser` statement into a `SqlStatement`, variant by variant;
/// any statement it does not name becomes `Other` with its SQL text.
#[verifier::external_body]
fn statement_of(s: &sp::Statement) -> SqlStatement {
    match s {
        sp::Statement::CreateTable(c) => create_table_of(c),
        sp::Statement::ShowTables { .. } => SqlStatement::ShowTables,
        sp::Statement::Drop { names, .. } => SqlStatement::Drop {
            names: names.iter().map(|n| n.to_string()).collect(),
        },
        sp::Statement::Insert(i) => insert_of(i),
        sp::Statement::Query(q) => SqlStatement::Query(query_of(q)),
        sp::Statement::Update(u) => update_of(u),
        sp::Statement::Delete(d) => delete_of(d),
        other => SqlStatement::Other(other.to_string()),
    }
}

/// Converts `sqlparser`'s `CreateTable`: the table's printed name, and each
/// column's identifier value and type.
#[verifier::external_body]
fn create_table_of(c: &sp::CreateTable) -> SqlStatement {
    SqlStatement::CreateTable {
        name: c.name.to_string(),
        columns: c.columns.iter().map(|col| SqlColumnDef {
            name: col.name.value.clone(),
            data_type: data_type_of(&col.data_type),
        }).collect(),
    }
}

/// Converts a `sqlparser` data type: `INT` and `INTEGER` with their widths,
/// `VARCHAR` with its length, any other by its debug text.
#[verifier::external_body]
fn data_type_of(d: &sp::DataType) -> SqlDataType {
    match d {
        sp::DataType::Int(w) => SqlDataType::Int(*w),
        sp::DataType::Integer(w) => SqlDataType::Integer(*w),
        sp::DataType::Varchar(l) => SqlDataType::Varchar { length: l.as_ref().map(char_length_of), debug: format!("{:?}", d) },
        other => SqlDataType::Other(format!("{:?}", other)),
    }
}

/// Converts a `sqlparser` character length, variant by variant.
#[verifier::external_body]
fn char_length_of(l: &sp::CharacterLength) -> SqlCharLength {
    match l {
        sp::CharacterLength::IntegerLength { length, unit } => SqlCharLength::Integer {
            length: *length,
            unit: unit.map(|u| match u {
                sp::CharLengthUnits::Characters => SqlCharUnit::Characters,
                sp::CharLengthUnits::Octets => SqlCharUnit::Octets,
            }),
        },
        sp::CharacterLength::Max => SqlCharLength::Max,
    }
}

/// Converts `sqlparser`'s `Insert`: the printed table, the column names, and
/// the source query.
#[verifier::external_body]
fn insert_of(i: &sp::Insert) -> SqlStatement {
    SqlStatement::Insert {
        table: i.table.to_string(),
        columns: i.columns.iter().map(name_parts_of).collect(),
        source: i.source.as_ref().map(|q| query_of(q)),
    }
}

/// Converts the parts of a `sqlparser` name: an identifier by its value, a
/// function part by its text.
#[verifier::external_body]
fn name_parts_of(n: &sp::ObjectName) -> Vec<SqlNamePart> {
    n.0.iter().map(|p| match p {
        sp::ObjectNamePart::Identifier(id) => SqlNamePart::Identifier(id.value.clone()),
        sp::ObjectNamePart::Function(f) => SqlNamePart::Function(f.to_string()),
    }).collect()
}

/// Converts the body of a `sqlparser` query: a `SELECT` (items, printed
/// relations of `FROM`, `WHERE`), a `VALUES` list, or anything else.
#[verifier::external_body]
fn query_of(q: &sp::Query) -> SqlQuery {
    match q.body.as_ref() {
        sp::SetExpr::Select(s) => SqlQuery::Select {
            projection: s.projection.iter().map(select_item_of).collect(),
            from: s.from.iter().map(|t| t.relation.to_string()).collect(),
            selection: s.selection.as_ref().map(expr_of),
        },
        sp::SetExpr::Values(v) => SqlQuery::Values(
            v.rows.iter().map(|r| r.content.iter().map(expr_of).collect()).collect(),
        ),
        _ => SqlQuery::Other,
    }
}

/// Converts a `sqlparser` select item, keeping its debug text.
#[verifier::external_body]
fn select_item_of(i: &sp::SelectItem) -> SqlSelectItem {
    match i {
        sp::SelectItem::UnnamedExpr(e) => SqlSelectItem::Unnamed {
            expr: expr_of(e),
            debug: format!("{:?}", i),
        },
        sp::SelectItem::Wildcard(_) => SqlSelectItem::Wildcard,
        other => SqlSelectItem::Other(format!("{:?}", other)),
    }
}

/// Converts `sqlparser`'s `Update`: the printed relation, the assignments and
/// the `WHERE`.
#[verifier::external_body]
fn update_of(u: &sp::Update) -> SqlStatement {
    SqlStatement::Update {
        table: u.table.relation.to_string(),
        assignments: u.assignments.iter().map(assignment_of).collect(),
        selection: u.selection.as_ref().map(expr_of),
    }
}

/// Converts a `sqlparser` assignment: a single column by the parts of its
/// name, a tuple target by its text.
#[verifier::external_body]
fn assignment_of(a: &sp::Assignment) -> SqlAssignment {
    let target = match &a.target {
        sp::AssignmentTarget::ColumnName(n) => SqlAssignTarget::Column(name_parts_of(n)),
        t @ sp::AssignmentTarget::Tuple(_) => SqlAssignTarget::Tuple(t.to_string()),
    };
    SqlAssignment { target, value: expr_of(&a.value) }
}

/// Converts `sqlparser`'s `Delete`: the printed relations of its `FROM` and
/// the `WHERE`.
#[verifier::external_body]
fn delete_of(d: &sp::Delete) -> SqlStatement {
    let tables = match &d.from {
        sp::FromTable::WithFromKeyword(t) => t,
        sp::FromTable::WithoutKeyword(t) => t,
    };
    SqlStatement::Delete {
        from: tables.iter().map(|t| t.relation.to_string()).collect(),
        selection: d.selection.as_ref().map(expr_of),
    }
}

/// Converts a `sqlparser` expression node by node, each with its debug text.
#[verifier::external_body]
fn expr_of(e: &sp::Expr) -> SqlExpr {
    let node = match e {
        sp::Expr::Identifier(id) => SqlNode::Identifier(id.value.clone()),
        sp::Expr::Value(v) => literal_of(v),
        sp::Expr::BinaryOp { left, op, right } => SqlNode::BinaryOp {
            left: Box::new(expr_of(left)),
            op: binary_op_of(op),
            right: Box::new(expr_of(right)),
        },
        sp::Expr::Nested(inner) => SqlNode::Nested(Box::new(expr_of(inner))),
        _ => SqlNode::Other,
    };
    SqlExpr { node, debug: format!("{:?}", e) }
}

/// Converts a `sqlparser` literal: a number or a single-quoted string by its text.
#[verifier::external_body]
fn literal_of(v: &sp::ValueWithSpan) -> SqlNode {
    match &v.value {
        sp::Value::Number(n, _) => SqlNode::Number(n.clone()),
        sp::Value::SingleQuotedString(s) => SqlNode::Quoted(s.clone()),
        _ => SqlNode::Other,
    }
}

/// Converts a `sqlparser` binary operator; others keep their debug text.
#[verifier::external_body]
fn binary_op_of(op: &sp::BinaryOperator) -> SqlBinOp {
    match op {
        sp::BinaryOperator::And => SqlBinOp::And,
        sp::BinaryOperator::Or => SqlBinOp::Or,
        sp::BinaryOperator::Eq => SqlBinOp::Eq,
        sp::BinaryOperator::NotEq => SqlBinOp::NotEq,
        sp::BinaryOperator::Lt => SqlBinOp::Lt,
        sp::BinaryOperator::Gt => SqlBinOp::Gt,
        sp::BinaryOperator::LtEq => SqlBinOp::LtEq,
        sp::BinaryOperator::GtEq => SqlBinOp::GtEq,
        other => SqlBinOp::Other(format!("{:?}", other)),
    }
}

} // verus!

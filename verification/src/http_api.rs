//! The HTTP database service: what each route does with the engine and what
//! it answers. Request bodies arrive as JSON; their values are handed over as
//! `Json` values, object members in the order they were read.

use vstd::prelude::*;
use crate::command::strings_view;
use crate::engine::{
    conditions_view, create_spec, data_view, delete_spec, drop_spec, engine_wf, entities_view, insert_spec, select_spec,
    table_aligned, update_spec, Engine, EngineV,
};
use crate::executor::{ExecuteResult, ExecuteResultV};
use crate::text::{cat2, cat3, nat_digits, str_eq, usize_to_string};
use crate::types::{
    Attr, AttrV, Condition, ConditionV, Data, DataV, Entity, EntityV, Operator, Table, TableV, Type, Value, ValueV,
};

verus! {

/// A JSON value as the service reads it. A number is an integer that fits in
/// `i64`, an integer above `i64::MAX`, or any other number.
pub enum Json {
    Null,
    Bool(bool),
    Int(i64),
    BigUint(u64),
    Float,
    Str(String),
    Array,
    Object,
}

pub enum JsonV {
    Null,
    Bool(bool),
    Int(i64),
    BigUint(u64),
    Float,
    Str(Seq<char>),
    Array,
    Object,
}

impl View for Json {
    type V = JsonV;

    open spec fn view(&self) -> JsonV {
        match self {
            Json::Null => JsonV::Null,
            Json::Bool(b) => JsonV::Bool(*b),
            Json::Int(i) => JsonV::Int(*i),
            Json::BigUint(u) => JsonV::BigUint(*u),
            Json::Float => JsonV::Float,
            Json::Str(s) => JsonV::Str(s@),
            Json::Array => JsonV::Array,
            Json::Object => JsonV::Object,
        }
    }
}

/// The cell value a JSON value stands for: an `i64` integer, cut to its low
/// 32 bits, or a string.
pub open spec fn db_value_of(v: JsonV) -> Result<ValueV, Seq<char>> {
    match v {
        JsonV::Int(i) => Ok(ValueV::Int(i as i32)),
        JsonV::BigUint(_) => Err("Invalid integer"@),
        JsonV::Float => Err("Invalid integer"@),
        JsonV::Str(s) => Ok(ValueV::VarChar(s)),
        _ => Err("Unsupported data format"@),
    }
}

/// The cell value of a JSON value.
pub fn json_to_db_value(value: Json) -> (r: Result<Value, String>)
    ensures
        match r {
            Ok(v) => db_value_of(value@) == Ok::<ValueV, Seq<char>>(v@),
            Err(e) => db_value_of(value@) == Err::<ValueV, Seq<char>>(e@),
        },
{
    match value {
        Json::Int(i) => Ok(Value::Int(i as i32)),
        Json::BigUint(_) => Err("Invalid integer".to_owned()),
        Json::Float => Err("Invalid integer".to_owned()),
        Json::Str(s) => Ok(Value::VarChar(s)),
        _ => Err("Unsupported data format".to_owned()),
    }
}

/// The members of a JSON object, in the order they were read.
pub open spec fn members_view(v: Seq<(String, Json)>) -> Seq<(Seq<char>, JsonV)> {
    v.map_values(|p: (String, Json)| (p.0@, p.1@))
}

/// The fields the members stand for, or the first member's error.
pub open spec fn fields_of(m: Seq<(Seq<char>, JsonV)>) -> Result<Seq<DataV>, Seq<char>>
    decreases m.len(),
{
    if m.len() == 0 {
        Ok(Seq::empty())
    } else {
        match fields_of(m.drop_last()) {
            Err(e) => Err(e),
            Ok(p) => match db_value_of(m.last().1) {
                Err(e) => Err(e),
                Ok(v) => Ok(p.push(DataV { name: m.last().0, value: v })),
            },
        }
    }
}

/// Equality conditions, one per field.
pub open spec fn eq_conditions(fields: Seq<DataV>) -> Seq<ConditionV> {
    fields.map_values(|d: DataV| ConditionV::Compare { attr: d.name, value: d.value, op: Operator::Eq })
}

proof fn lemma_fields_err_extends(m: Seq<(Seq<char>, JsonV)>, i: int)
    requires
        0 <= i <= m.len(),
        fields_of(m.take(i)) is Err,
    ensures
        fields_of(m) == fields_of(m.take(i)),
    decreases m.len() - i,
{
    if i == m.len() {
        assert(m.take(i) =~= m);
    } else {
        assert(m.take(i + 1).drop_last() =~= m.take(i));
        lemma_fields_err_extends(m, i + 1);
    }
}

/// The fields of the members, in order.
fn json_fields(members: Vec<(String, Json)>) -> (r: Result<Vec<Data>, String>)
    ensures
        match r {
            Ok(d) => fields_of(members_view(members@)) == Ok::<Seq<DataV>, Seq<char>>(data_view(d@)),
            Err(e) => fields_of(members_view(members@)) == Err::<Seq<DataV>, Seq<char>>(e@),
        },
{
    let ghost m = members_view(members@);
    let mut out: Vec<Data> = Vec::new();
    assert(data_view(out@) =~= Seq::<DataV>::empty());
    assert(m.take(0) =~= Seq::<(Seq<char>, JsonV)>::empty());
    let n = members.len();
    let mut rest = members;
    let ghost total = m.len();
    let mut i: usize = 0;
    while rest.len() > 0
        invariant
            i + rest@.len() == total,
            total == m.len(),
            total == n,
            m == members_view(members@),
            members_view(rest@) == m.subrange(i as int, total as int),
            fields_of(m.take(i as int)) == Ok::<Seq<DataV>, Seq<char>>(data_view(out@)),
        decreases rest@.len(),
    {
        let ghost before = rest@;
        let (name, value) = rest.remove(0);
        assert(members_view(before)[0] == m[i as int]);
        assert(rest@ =~= before.subrange(1, before.len() as int));
        assert(members_view(rest@) =~= members_view(before).subrange(1, before.len() as int));
        assert(members_view(rest@) =~= m.subrange(i + 1, total as int));
        assert(m.take(i + 1).drop_last() =~= m.take(i as int));
        assert(m.take(i + 1).last() == m[i as int]);
        match json_to_db_value(value) {
            Ok(v) => {
                let ghost p = out@;
                let d = Data { name, value: v };
                out.push(d);
                assert(data_view(out@) =~= data_view(p).push(d@));
            },
            Err(e) => {
                proof { lemma_fields_err_extends(m, i + 1); }
                return Err(e);
            },
        }
        i = i + 1;
    }
    assert(m.take(i as int) =~= m);
    Ok(out)
}

/// A route's answer: whether it succeeded, its message, its rows.
#[derive(Debug)]
pub struct ApiResponse {
    pub success: bool,
    pub message: Option<String>,
    pub rows: Option<Vec<Entity>>,
}

pub struct ApiResponseV {
    pub success: bool,
    pub message: Option<Seq<char>>,
    pub rows: Option<Seq<EntityV>>,
}

impl View for ApiResponse {
    type V = ApiResponseV;

    open spec fn view(&self) -> ApiResponseV {
        ApiResponseV {
            success: self.success,
            message: match self.message {
                Some(m) => Some(m@),
                None => None,
            },
            rows: match self.rows {
                Some(r) => Some(entities_view(r@)),
                None => None,
            },
        }
    }
}

/// The answer a result is sent as.
pub open spec fn api_spec(r: ExecuteResultV) -> ApiResponseV {
    match r {
        ExecuteResultV::Success(m) => ApiResponseV { success: true, message: Some(m), rows: None },
        ExecuteResultV::Error(m) => ApiResponseV { success: false, message: Some(m), rows: None },
        ExecuteResultV::Rows(rows) => ApiResponseV { success: true, message: None, rows: Some(rows) },
    }
}

/// The answer a result is sent as.
pub fn map_response(result: ExecuteResult) -> (r: ApiResponse)
    ensures
        r@ == api_spec(result@),
{
    match result {
        ExecuteResult::Success(msg) => ApiResponse { success: true, message: Some(msg), rows: None },
        ExecuteResult::Error(msg) => ApiResponse { success: false, message: Some(msg), rows: None },
        ExecuteResult::Rows(rows) => ApiResponse { success: true, message: None, rows: Some(rows) },
    }
}

/// What `str::to_uppercase` makes of a text.
pub uninterp spec fn upper_text(s: Seq<char>) -> Seq<char>;

/// Upper-cases `s` with `str::to_uppercase`. Claimed: the result is
/// `upper_text` of the text.
#[verifier::external_body]
fn to_uppercase(s: &str) -> (r: String)
    ensures
        r@ == upper_text(s@),
{
    s.to_uppercase()
}

/// The column type a type name stands for: `INT` in any case is an integer;
/// anything else is a string of 255 bytes.
pub open spec fn type_of_name(name: Seq<char>) -> Type {
    if upper_text(name) == "INT"@ { Type::Int } else { Type::VarChar(255) }
}

/// The column type a type name stands for.
pub fn type_from_name(name: &str) -> (r: Type)
    ensures
        r == type_of_name(name@),
{
    let u = to_uppercase(name);
    proof { reveal_strlit("INT"); }
    if str_eq(u.as_str(), "INT") { Type::Int } else { Type::VarChar(255) }
}

/// The schema a create request asks for: each attribute's name and type name.
pub open spec fn requested_table(name: Seq<char>, attrs: Seq<(Seq<char>, Seq<char>)>) -> TableV {
    TableV { name, attrs: attrs.map_values(|a: (Seq<char>, Seq<char>)| AttrV { name: a.0, data_type: type_of_name(a.1) }) }
}

pub open spec fn name_pairs_view(v: Seq<(String, String)>) -> Seq<(Seq<char>, Seq<char>)> {
    v.map_values(|p: (String, String)| (p.0@, p.1@))
}

/// `POST /tables`: creates the table.
pub fn create_table_route(engine: &mut Engine, name: String, attrs: Vec<(String, String)>) -> (r: ApiResponse)
    requires
        engine_wf(old(engine)@),
    ensures
        engine_wf(final(engine)@),
        ({
            let t = requested_table(name@, name_pairs_view(attrs@));
            let (e2, res) = create_spec(old(engine)@, t);
            &&& final(engine)@ == e2
            &&& r@ == match res {
                Ok(_) => ApiResponseV { success: true, message: Some("Table created successfully"@), rows: None },
                Err(m) => ApiResponseV { success: false, message: Some(m), rows: None },
            }
        }),
{
    let ghost av = name_pairs_view(attrs@);
    let mut list: Vec<Attr> = Vec::new();
    let mut i: usize = 0;
    while i < attrs.len()
        invariant
            i <= attrs@.len(),
            av == name_pairs_view(attrs@),
            list@.map_values(|a: Attr| a@) =~= av.take(i as int).map_values(|a: (Seq<char>, Seq<char>)| AttrV { name: a.0, data_type: type_of_name(a.1) }),
        decreases attrs@.len() - i,
    {
        let ghost p = list@;
        let t = type_from_name(attrs[i].1.as_str());
        list.push(Attr { name: attrs[i].0.clone(), data_type: t });
        assert(list@.map_values(|a: Attr| a@) =~= p.map_values(|a: Attr| a@).push(AttrV { name: attrs@[i as int].0@, data_type: t }));
        assert(av.take(i + 1) =~= av.take(i as int).push(av[i as int]));
        i = i + 1;
    }
    assert(av.take(i as int) =~= av);
    let table = Table { name, attrs: list };
    let result = match engine.create_table(&table) {
        Ok(_) => ExecuteResult::Success("Table created successfully".to_owned()),
        Err(e) => ExecuteResult::Error(e),
    };
    map_response(result)
}

/// `DELETE /tables/{name}`: drops the table.
pub fn drop_table_route(engine: &mut Engine, table_name: String) -> (r: ApiResponse)
    requires
        engine_wf(old(engine)@),
    ensures
        engine_wf(final(engine)@),
        final(engine)@ == drop_spec(old(engine)@, table_name@).0,
        r@ == match drop_spec(old(engine)@, table_name@).1 {
            Ok(_) => ApiResponseV { success: true, message: Some("Table '"@ + table_name@ + "' deleted"@), rows: None },
            Err(m) => ApiResponseV { success: false, message: Some(m), rows: None },
        },
{
    let result = match engine.drop_table(table_name.as_str()) {
        Ok(_) => ExecuteResult::Success(cat3("Table '", table_name.as_str(), "' deleted")),
        Err(e) => ExecuteResult::Error(e),
    };
    map_response(result)
}

/// `POST /tables/{name}/rows`: inserts a row with the members as fields.
pub fn insert_row_route(engine: &mut Engine, table_name: String, payload: Vec<(String, Json)>) -> (r: ApiResponse)
    requires
        engine_wf(old(engine)@),
    ensures
        engine_wf(final(engine)@),
        match fields_of(members_view(payload@)) {
            Err(m) => final(engine)@ == old(engine)@ && r@ == (ApiResponseV { success: false, message: Some(m), rows: None }),
            Ok(fields) => {
                let (e2, res) = insert_spec(old(engine)@, EntityV { of: table_name@, data: fields });
                &&& final(engine)@ == e2
                &&& r@ == match res {
                    Ok(_) => ApiResponseV { success: true, message: Some("Row inserted"@), rows: None },
                    Err(m) => ApiResponseV { success: false, message: Some(m), rows: None },
                }
            },
        },
{
    let data = match json_fields(payload) {
        Ok(d) => d,
        Err(e) => return map_response(ExecuteResult::Error(e)),
    };
    let entity = Entity { of: table_name, data };
    let result = match engine.insert(&entity) {
        Ok(_) => ExecuteResult::Success("Row inserted".to_owned()),
        Err(e) => ExecuteResult::Error(e),
    };
    map_response(result)
}

/// `GET /tables/{name}/rows`: every row, with every field.
pub fn select_rows_route(engine: &Engine, table_name: String) -> (r: ApiResponse)
    requires
        engine_wf(engine@),
        table_aligned(engine@, table_name@),
    ensures
        r@ == match select_spec(engine@, table_name@, seq!["*"@], Seq::empty()) {
            Ok(rows) => ApiResponseV { success: true, message: None, rows: Some(rows) },
            Err(m) => ApiResponseV { success: false, message: Some(m), rows: None },
        },
{
    let mut attrs: Vec<&str> = Vec::new();
    attrs.push("*");
    let conditions: Vec<Condition> = Vec::new();
    assert(crate::engine::strs_view(attrs@) =~= seq!["*"@]);
    assert(conditions_view(conditions@) =~= Seq::<ConditionV>::empty());
    let result = match engine.select(table_name.as_str(), attrs, conditions) {
        Ok(rows) => ExecuteResult::Rows(rows),
        Err(e) => ExecuteResult::Error(e),
    };
    map_response(result)
}

fn eq_conditions_of(fields: Vec<Data>) -> (r: Vec<Condition>)
    ensures
        conditions_view(r@) == eq_conditions(data_view(fields@)),
{
    let ghost dv = data_view(fields@);
    let mut out: Vec<Condition> = Vec::new();
    let mut i: usize = 0;
    while i < fields.len()
        invariant
            i <= fields@.len(),
            dv == data_view(fields@),
            conditions_view(out@) =~= eq_conditions(dv.take(i as int)),
        decreases fields@.len() - i,
    {
        let ghost p = out@;
        let c = Condition::Compare { attr: fields[i].name.clone(), value: fields[i].value.clone(), op: Operator::Eq };
        out.push(c);
        assert(conditions_view(out@) =~= conditions_view(p).push(c@));
        assert(dv.take(i + 1) =~= dv.take(i as int).push(dv[i as int]));
        i = i + 1;
    }
    assert(dv.take(i as int) =~= dv);
    out
}

/// `PUT /tables/{name}/rows`: sets the update members on the rows equal to
/// every condition member.
pub fn update_row_route(engine: &mut Engine, table_name: String, updates: Vec<(String, Json)>, conditions: Vec<(String, Json)>) -> (r: ApiResponse)
    requires
        engine_wf(old(engine)@),
        table_aligned(old(engine)@, table_name@),
    ensures
        engine_wf(final(engine)@),
        match fields_of(members_view(updates@)) {
            Err(m) => final(engine)@ == old(engine)@ && r@ == (ApiResponseV { success: false, message: Some(m), rows: None }),
            Ok(ups) => match fields_of(members_view(conditions@)) {
                Err(m) => final(engine)@ == old(engine)@ && r@ == (ApiResponseV { success: false, message: Some(m), rows: None }),
                Ok(cs) => {
                    let (e2, res) = update_spec(old(engine)@, table_name@, ups, eq_conditions(cs));
                    &&& final(engine)@ == e2
                    &&& r@ == match res {
                        Ok(n) => ApiResponseV { success: true, message: Some(nat_digits(n) + " row(s) updated"@), rows: None },
                        Err(m) => ApiResponseV { success: false, message: Some(m), rows: None },
                    }
                },
            },
        },
{
    let ups = match json_fields(updates) {
        Ok(d) => d,
        Err(e) => return map_response(ExecuteResult::Error(e)),
    };
    let cs = match json_fields(conditions) {
        Ok(d) => d,
        Err(e) => return map_response(ExecuteResult::Error(e)),
    };
    let conds = eq_conditions_of(cs);
    let result = match engine.update(table_name.as_str(), ups, conds) {
        Ok(count) => {
            let d = usize_to_string(count);
            ExecuteResult::Success(cat2(d.as_str(), " row(s) updated"))
        },
        Err(e) => ExecuteResult::Error(e),
    };
    map_response(result)
}

/// `DELETE /tables/{name}/rows`: deletes the rows equal to every member.
pub fn delete_row_route(engine: &mut Engine, table_name: String, payload: Vec<(String, Json)>) -> (r: ApiResponse)
    requires
        engine_wf(old(engine)@),
        table_aligned(old(engine)@, table_name@),
    ensures
        engine_wf(final(engine)@),
        match fields_of(members_view(payload@)) {
            Err(m) => final(engine)@ == old(engine)@ && r@ == (ApiResponseV { success: false, message: Some(m), rows: None }),
            Ok(cs) => {
                let (e2, res) = delete_spec(old(engine)@, table_name@, eq_conditions(cs));
                &&& final(engine)@ == e2
                &&& r@ == match res {
                    Ok(n) => ApiResponseV { success: true, message: Some(nat_digits(n) + " row(s) deleted"@), rows: None },
                    Err(m) => ApiResponseV { success: false, message: Some(m), rows: None },
                }
            },
        },
{
    let cs = match json_fields(payload) {
        Ok(d) => d,
        Err(e) => return map_response(ExecuteResult::Error(e)),
    };
    let conds = eq_conditions_of(cs);
    let result = match engine.delete(table_name.as_str(), conds) {
        Ok(count) => {
            let d = usize_to_string(count);
            ExecuteResult::Success(cat2(d.as_str(), " row(s) deleted"))
        },
        Err(e) => ExecuteResult::Error(e),
    };
    map_response(result)
}

} // verus!

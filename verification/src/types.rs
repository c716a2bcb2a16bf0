//! The data model: column types, values, table schemas, rows and row conditions.

use vstd::prelude::*;
use crate::text::{
    cat3, i32_text, i32_to_string, lemma_parse_i32_text, lemma_trim_i32_text, nat_digits, parse_i32,
    parse_i32_str, str_eq, trim_whitespace, trim_ws, usize_to_string,
};

verus! {

/// Comparison operator of a condition.
#[derive(Debug, Clone, Copy, PartialEq, Eq, Structural)]
pub enum Operator {
    Eq,
    Ne,
    Lt,
    Le,
    Gt,
    Ge,
}

/// Column type: a 32-bit integer, or a string stored in a fixed number of bytes.
#[derive(Debug, Clone, Copy, PartialEq, Eq, Structural)]
pub enum Type {
    Int,
    VarChar(usize),
}

/// A cell value.
#[derive(Debug)]
pub enum Value {
    Int(i32),
    VarChar(String),
    Null,
}

/// Abstract value of a cell.
pub enum ValueV {
    Int(i32),
    VarChar(Seq<char>),
    Null,
}

impl View for Value {
    type V = ValueV;

    open spec fn view(&self) -> ValueV {
        match self {
            Value::Int(i) => ValueV::Int(*i),
            Value::VarChar(s) => ValueV::VarChar(s@),
            Value::Null => ValueV::Null,
        }
    }
}

impl Clone for Value {
    fn clone(&self) -> (r: Self)
        ensures
            r@ == self@,
    {
        match self {
            Value::Int(i) => Value::Int(*i),
            Value::VarChar(s) => Value::VarChar(s.clone()),
            Value::Null => Value::Null,
        }
    }
}

/// A column of a table: its name and type.
#[derive(Debug)]
pub struct Attr {
    pub name: String,
    pub data_type: Type,
}

pub struct AttrV {
    pub name: Seq<char>,
    pub data_type: Type,
}

impl View for Attr {
    type V = AttrV;

    open spec fn view(&self) -> AttrV {
        AttrV { name: self.name@, data_type: self.data_type }
    }
}

impl Clone for Attr {
    fn clone(&self) -> (r: Self)
        ensures
            r@ == self@,
    {
        Attr { name: self.name.clone(), data_type: self.data_type }
    }
}

/// A table schema: its name and its columns in order.
#[derive(Debug)]
pub struct Table {
    pub name: String,
    pub attrs: Vec<Attr>,
}

pub struct TableV {
    pub name: Seq<char>,
    pub attrs: Seq<AttrV>,
}

impl View for Table {
    type V = TableV;

    open spec fn view(&self) -> TableV {
        TableV { name: self.name@, attrs: self.attrs@.map_values(|a: Attr| a@) }
    }
}

impl Clone for Table {
    fn clone(&self) -> (r: Self)
        ensures
            r@ == self@,
    {
        let mut attrs: Vec<Attr> = Vec::new();
        let mut i: usize = 0;
        while i < self.attrs.len()
            invariant
                i <= self.attrs@.len(),
                attrs@.map_values(|a: Attr| a@) =~= self@.attrs.take(i as int),
            decreases self.attrs@.len() - i,
        {
            let ghost p = attrs@;
            attrs.push(self.attrs[i].clone());
            assert(attrs@.map_values(|a: Attr| a@) =~= p.map_values(|a: Attr| a@).push(self@.attrs[i as int]));
            i = i + 1;
        }
        assert(self@.attrs.take(i as int) =~= self@.attrs);
        Table { name: self.name.clone(), attrs }
    }
}

/// A named value: one field of a row.
#[derive(Debug)]
pub struct Data {
    pub name: String,
    pub value: Value,
}

pub struct DataV {
    pub name: Seq<char>,
    pub value: ValueV,
}

impl View for Data {
    type V = DataV;

    open spec fn view(&self) -> DataV {
        DataV { name: self.name@, value: self.value@ }
    }
}

impl Clone for Data {
    fn clone(&self) -> (r: Self)
        ensures
            r@ == self@,
    {
        Data { name: self.name.clone(), value: self.value.clone() }
    }
}

/// A row of a table: the table's name and its fields.
#[derive(Debug)]
pub struct Entity {
    pub of: String,
    pub data: Vec<Data>,
}

pub struct EntityV {
    pub of: Seq<char>,
    pub data: Seq<DataV>,
}

impl View for Entity {
    type V = EntityV;

    open spec fn view(&self) -> EntityV {
        EntityV { of: self.of@, data: self.data@.map_values(|d: Data| d@) }
    }
}

impl Clone for Entity {
    fn clone(&self) -> (r: Self)
        ensures
            r@ == self@,
    {
        let mut data: Vec<Data> = Vec::new();
        let mut j: usize = 0;
        while j < self.data.len()
            invariant
                j <= self.data@.len(),
                data@.map_values(|d: Data| d@) =~= self@.data.take(j as int),
            decreases self.data@.len() - j,
        {
            let ghost p = data@;
            data.push(self.data[j].clone());
            assert(data@.map_values(|d: Data| d@) =~= p.map_values(|d: Data| d@).push(self@.data[j as int]));
            j = j + 1;
        }
        assert(self@.data.take(j as int) =~= self@.data);
        Entity { of: self.of.clone(), data }
    }
}

/// A condition on a row.
#[derive(Debug)]
pub enum Condition {
    Compare { attr: String, value: Value, op: Operator },
    And(Box<Condition>, Box<Condition>),
    Or(Box<Condition>, Box<Condition>),
}

pub enum ConditionV {
    Compare { attr: Seq<char>, value: ValueV, op: Operator },
    And(Box<ConditionV>, Box<ConditionV>),
    Or(Box<ConditionV>, Box<ConditionV>),
}

impl View for Condition {
    type V = ConditionV;

    open spec fn view(&self) -> ConditionV
        decreases self,
    {
        match self {
            Condition::Compare { attr, value, op } => ConditionV::Compare {
                attr: attr@,
                value: value@,
                op: *op,
            },
            Condition::And(l, r) => ConditionV::And(Box::new((**l).view()), Box::new((**r).view())),
            Condition::Or(l, r) => ConditionV::Or(Box::new((**l).view()), Box::new((**r).view())),
        }
    }
}

impl Clone for Condition {
    fn clone(&self) -> (r: Self)
        ensures
            r@ == self@,
        decreases self,
    {
        match self {
            Condition::Compare { attr, value, op } => Condition::Compare { attr: attr.clone(), value: value.clone(), op: *op },
            Condition::And(l, r) => Condition::And(Box::new((**l).clone()), Box::new((**r).clone())),
            Condition::Or(l, r) => Condition::Or(Box::new((**l).clone()), Box::new((**r).clone())),
        }
    }
}

/// How a type is written in SQL: `INT` or `VARCHAR(n)`.
pub open spec fn type_text(t: Type) -> Seq<char> {
    match t {
        Type::Int => "INT"@,
        Type::VarChar(n) => "VARCHAR("@ + nat_digits(n as nat) + ")"@,
    }
}

/// The name of the kind of a value: `INT`, `VARCHAR` or `NULL`.
pub open spec fn value_kind_text(v: ValueV) -> Seq<char> {
    match v {
        ValueV::Int(_) => "INT"@,
        ValueV::VarChar(_) => "VARCHAR"@,
        ValueV::Null => "NULL"@,
    }
}

impl Type {
    /// The SQL spelling of the type.
    pub fn to_string(&self) -> (r: String)
        ensures
            r@ == type_text(*self),
    {
        match self {
            Type::Int => "INT".to_owned(),
            Type::VarChar(n) => {
                let digits = usize_to_string(*n);
                cat3("VARCHAR(", digits.as_str(), ")")
            },
        }
    }
}

/// Result of converting a value to a column type.
pub open spec fn cast_spec(v: ValueV, target: Type) -> Result<ValueV, Seq<char>> {
    match (v, target) {
        (ValueV::Null, _) => Ok(ValueV::Null),
        (ValueV::Int(i), Type::Int) => Ok(ValueV::Int(i)),
        (ValueV::VarChar(s), Type::VarChar(_)) => Ok(ValueV::VarChar(s)),
        (ValueV::Int(i), Type::VarChar(_)) => Ok(ValueV::VarChar(i32_text(i))),
        (ValueV::VarChar(s), Type::Int) => match parse_i32(trim_ws(s)) {
            Some(i) => Ok(ValueV::Int(i)),
            None => Err("Cannot cast '"@ + s + "' to INT"@),
        },
    }
}

impl Value {
    /// The name of the kind of this value.
    pub fn kind_name(&self) -> (r: &'static str)
        ensures
            r@ == value_kind_text(self@),
    {
        match self {
            Value::Int(_) => "INT",
            Value::VarChar(_) => "VARCHAR",
            Value::Null => "NULL",
        }
    }

    /// The kind of the value as text, the way a value is displayed.
    pub fn to_string(&self) -> (r: String)
        ensures
            r@ == value_kind_text(self@),
    {
        self.kind_name().to_owned()
    }

    /// Converts the value to `target`: NULL stays NULL, integers are rendered in
    /// decimal, strings are trimmed and parsed as integers.
    pub fn cast_to(self, target: &Type) -> (r: Result<Value, String>)
        ensures
            match r {
                Ok(v) => cast_spec(self@, *target) == Ok::<ValueV, Seq<char>>(v@),
                Err(e) => cast_spec(self@, *target) == Err::<ValueV, Seq<char>>(e@),
            },
    {
        match (self, target) {
            (Value::Null, _) => Ok(Value::Null),
            (Value::Int(v), Type::Int) => Ok(Value::Int(v)),
            (Value::VarChar(s), Type::VarChar(_)) => Ok(Value::VarChar(s)),
            (Value::Int(v), Type::VarChar(_)) => Ok(Value::VarChar(i32_to_string(v))),
            (Value::VarChar(s), Type::Int) => {
                let t = trim_whitespace(s.as_str());
                match parse_i32_str(t.as_str()) {
                    Some(v) => Ok(Value::Int(v)),
                    None => Err(cat3("Cannot cast '", s.as_str(), "' to INT")),
                }
            },
        }
    }
}

impl Table {
    /// Index of the first column named `attr_name`.
    pub fn attrs_index(&self, attr_name: &str) -> (r: Option<usize>)
        ensures
            match r {
                Some(i) => i < self.attrs@.len() && self@.attrs[i as int].name == attr_name@
                    && forall|j: int| 0 <= j < i ==> #[trigger] self@.attrs[j].name != attr_name@,
                None => forall|j: int| 0 <= j < self@.attrs.len() ==> #[trigger] self@.attrs[j].name != attr_name@,
            },
    {
        let mut i: usize = 0;
        while i < self.attrs.len()
            invariant
                i <= self.attrs@.len(),
                forall|j: int| 0 <= j < i ==> #[trigger] self@.attrs[j].name != attr_name@,
            decreases self.attrs@.len() - i,
        {
            if str_eq(attr_name, self.attrs[i].name.as_str()) {
                return Some(i);
            }
            i = i + 1;
        }
        None
    }

    /// Whether the table has a column named `attr_name`.
    pub fn attr_exists(&self, attr_name: &str) -> (r: bool)
        ensures
            r == exists|i: int| 0 <= i < self.attrs@.len() && #[trigger] self.attrs@[i].name@ == attr_name@,
    {
        let mut i: usize = 0;
        while i < self.attrs.len()
            invariant
                i <= self.attrs@.len(),
                forall|j: int| 0 <= j < i ==> #[trigger] self.attrs@[j].name@ != attr_name@,
            decreases self.attrs@.len() - i,
        {
            if str_eq(attr_name, self.attrs[i].name.as_str()) {
                return true;
            }
            i = i + 1;
        }
        false
    }
}

/// Casting an integer to a string column and back gives the integer again.
pub proof fn lemma_cast_int_roundtrip(i: i32, n: usize)
    ensures
        cast_spec(ValueV::Int(i), Type::VarChar(n)) == Ok::<ValueV, Seq<char>>(ValueV::VarChar(i32_text(i))),
        cast_spec(ValueV::VarChar(i32_text(i)), Type::Int) == Ok::<ValueV, Seq<char>>(ValueV::Int(i)),
{
    lemma_parse_i32_text(i);
    lemma_trim_i32_text(i);
}

/// Whether the table has a column named `name`.
pub open spec fn has_attr(t: TableV, name: Seq<char>) -> bool {
    exists|i: int| 0 <= i < t.attrs.len() && #[trigger] t.attrs[i].name == name
}

/// Whether `i` is the index of the first column named `name`.
pub open spec fn first_attr(t: TableV, name: Seq<char>, i: int) -> bool {
    &&& 0 <= i < t.attrs.len()
    &&& t.attrs[i].name == name
    &&& forall|j: int| 0 <= j < i ==> #[trigger] t.attrs[j].name != name
}

/// Index of the first column named `name`.
pub open spec fn attr_idx(t: TableV, name: Seq<char>) -> int {
    choose|i: int| #[trigger] first_attr(t, name, i)
}

proof fn lemma_first_attr_exists(t: TableV, name: Seq<char>, k: int)
    requires
        0 <= k < t.attrs.len(),
        t.attrs[k].name == name,
    ensures
        exists|i: int| #[trigger] first_attr(t, name, i),
    decreases k,
{
    if exists|j: int| 0 <= j < k && #[trigger] t.attrs[j].name == name {
        let j = choose|j: int| 0 <= j < k && #[trigger] t.attrs[j].name == name;
        lemma_first_attr_exists(t, name, j);
    } else {
        assert(first_attr(t, name, k));
    }
}

/// The index of a column name is that of its first column.
pub broadcast proof fn lemma_attr_idx_first(t: TableV, name: Seq<char>)
    requires
        has_attr(t, name),
    ensures
        #[trigger] first_attr(t, name, attr_idx(t, name)),
{
    let k = choose|k: int| 0 <= k < t.attrs.len() && #[trigger] t.attrs[k].name == name;
    lemma_first_attr_exists(t, name, k);
}

/// The first column of a name is the one its name stands for.
pub proof fn lemma_attr_idx(t: TableV, name: Seq<char>, i: int)
    requires
        0 <= i < t.attrs.len(),
        t.attrs[i].name == name,
        forall|j: int| 0 <= j < i ==> #[trigger] t.attrs[j].name != name,
    ensures
        has_attr(t, name),
        attr_idx(t, name) == i,
{
    assert(has_attr(t, name));
    assert(first_attr(t, name, i));
    let j = attr_idx(t, name);
    if j != i {
        assert(first_attr(t, name, j));
        if j < i {
            assert(t.attrs[j].name != name);
        } else {
            assert(t.attrs[i].name != name);
        }
    }
}

} // verus!

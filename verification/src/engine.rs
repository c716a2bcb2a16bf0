//! The database engine: table schemas and their column data, with the table
//! operations (create, drop, alter) and the row operations (insert, select,
//! update, delete). Column data is held as the values that the column files hold:
//! every value written goes through the record format of `codec`.

use vstd::prelude::*;
use crate::codec::{all_typed, is_typed, lemma_stored_typed, stored, stored_value, typed, values_view};
use crate::text::{cat2, cat3, cat4, cat5, str_eq};
pub use crate::types::{attr_idx, first_attr, has_attr, lemma_attr_idx};
use crate::types::{
    cast_spec, type_text, value_kind_text, Attr, AttrV, Condition, ConditionV, Data, DataV, Entity, EntityV, Operator,
    Table, TableV, Type, Value, ValueV,
};

verus! {

broadcast use crate::types::lemma_attr_idx_first;

/// A change to the columns of a table.
#[derive(Debug)]
pub enum AlterOp {
    AddColumn(Attr),
    DropColumn(String),
    RenameColumn { from: String, to: String },
    ModifyColumnType { name: String, new_type: Type },
}

pub enum AlterOpV {
    AddColumn(AttrV),
    DropColumn(Seq<char>),
    RenameColumn { from: Seq<char>, to: Seq<char> },
    ModifyColumnType { name: Seq<char>, new_type: Type },
}

impl View for AlterOp {
    type V = AlterOpV;

    open spec fn view(&self) -> AlterOpV {
        match self {
            AlterOp::AddColumn(a) => AlterOpV::AddColumn(a@),
            AlterOp::DropColumn(c) => AlterOpV::DropColumn(c@),
            AlterOp::RenameColumn { from, to } => AlterOpV::RenameColumn { from: from@, to: to@ },
            AlterOp::ModifyColumnType { name, new_type } => AlterOpV::ModifyColumnType { name: name@, new_type: *new_type },
        }
    }
}

/// The engine: table schemas and, parallel to them, each table's columns.
pub struct Engine {
    pub(crate) tables: Vec<Table>,
    pub(crate) columns: Vec<Vec<Vec<Value>>>,
}

/// Abstract state of the engine.
pub struct EngineV {
    pub tables: Seq<TableV>,
    pub data: Seq<Seq<Seq<ValueV>>>,
}

pub open spec fn columns_view(cols: Seq<Vec<Value>>) -> Seq<Seq<ValueV>> {
    cols.map_values(|c: Vec<Value>| values_view(c@))
}

impl View for Engine {
    type V = EngineV;

    closed spec fn view(&self) -> EngineV {
        EngineV {
            tables: self.tables@.map_values(|t: Table| t@),
            data: self.columns@.map_values(|tc: Vec<Vec<Value>>| columns_view(tc@)),
        }
    }
}

/// Whether no two columns of a table share a name.
pub open spec fn distinct_attr_names(attrs: Seq<AttrV>) -> bool {
    forall|i: int, j: int| 0 <= i < attrs.len() && 0 <= j < attrs.len() && i != j ==> #[trigger] attrs[i].name != #[trigger] attrs[j].name
}

/// The invariant of the engine's state: one column per column of the schema,
/// every stored value fits its column's type, and table names are unique.
/// Column names may repeat: an insert writes a field to every column of its
/// name, and a lookup by name finds the first of them.
pub open spec fn engine_wf(e: EngineV) -> bool {
    &&& e.data.len() == e.tables.len()
    &&& forall|t: int| 0 <= t < e.tables.len() ==> #[trigger] e.data[t].len() == e.tables[t].attrs.len()
    &&& forall|t: int, a: int| 0 <= t < e.tables.len() && 0 <= a < e.tables[t].attrs.len()
        ==> all_typed(#[trigger] e.data[t][a], e.tables[t].attrs[a].data_type)
    &&& forall|i: int, j: int| 0 <= i < e.tables.len() && 0 <= j < e.tables.len() && i != j
        ==> #[trigger] e.tables[i].name != #[trigger] e.tables[j].name
}

/// Whether the engine has a table named `name`.
pub open spec fn has_table(e: EngineV, name: Seq<char>) -> bool {
    exists|i: int| 0 <= i < e.tables.len() && #[trigger] e.tables[i].name == name
}

/// Index of the table named `name`.
pub open spec fn table_idx(e: EngineV, name: Seq<char>) -> int {
    choose|i: int| 0 <= i < e.tables.len() && #[trigger] e.tables[i].name == name
}

/// Number of rows of a table: the length of its first column.
pub open spec fn row_count(cols: Seq<Seq<ValueV>>) -> nat {
    if cols.len() == 0 { 0 } else { cols[0].len() }
}

/// Whether every row below the row count has a value in every column, so
/// that rows can be assembled.
pub open spec fn aligned(cols: Seq<Seq<ValueV>>) -> bool {
    forall|a: int| 0 <= a < cols.len() ==> #[trigger] cols[a].len() >= row_count(cols)
}

/// Row `r` of a table: one field per column, in column order.
pub open spec fn row_entity(t: TableV, cols: Seq<Seq<ValueV>>, r: int) -> EntityV {
    EntityV {
        of: t.name,
        data: Seq::new(t.attrs.len(), |a: int| DataV { name: t.attrs[a].name, value: cols[a][r] }),
    }
}

/// The first field named `name`.
pub open spec fn find_data(d: Seq<DataV>, name: Seq<char>) -> Option<DataV>
    decreases d.len(),
{
    if d.len() == 0 {
        None
    } else if d[0].name == name {
        Some(d[0])
    } else {
        find_data(d.drop_first(), name)
    }
}

/// Comparison of a stored value with a condition's value: NULL never compares
/// true; strings compare only for equality and inequality.
pub open spec fn compare(a: ValueV, b: ValueV, op: Operator) -> bool {
    match (a, b) {
        (ValueV::Int(x), ValueV::Int(y)) => match op {
            Operator::Eq => x == y,
            Operator::Ne => x != y,
            Operator::Gt => x > y,
            Operator::Ge => x >= y,
            Operator::Lt => x < y,
            Operator::Le => x <= y,
        },
        (ValueV::VarChar(x), ValueV::VarChar(y)) => match op {
            Operator::Eq => x == y,
            Operator::Ne => x != y,
            _ => false,
        },
        _ => false,
    }
}

/// Whether a row satisfies a condition.
pub open spec fn row_matches(e: EntityV, c: ConditionV) -> bool
    decreases c,
{
    match c {
        ConditionV::Compare { attr, value, op } => match find_data(e.data, attr) {
            Some(d) => compare(d.value, value, op),
            None => false,
        },
        ConditionV::And(l, r) => row_matches(e, *l) && row_matches(e, *r),
        ConditionV::Or(l, r) => row_matches(e, *l) || row_matches(e, *r),
    }
}

/// Whether a row satisfies every condition.
pub open spec fn all_match(e: EntityV, cs: Seq<ConditionV>) -> bool {
    forall|i: int| 0 <= i < cs.len() ==> row_matches(e, #[trigger] cs[i])
}

pub open spec fn conditions_view(cs: Seq<Condition>) -> Seq<ConditionV> {
    cs.map_values(|c: Condition| c@)
}

pub open spec fn data_view(d: Seq<Data>) -> Seq<DataV> {
    d.map_values(|x: Data| x@)
}

/// The first validation error of a row for a table, checking the columns from
/// index `i` on: a missing field, or a field whose value does not fit its column.
pub open spec fn attr_error_from(attrs: Seq<AttrV>, d: Seq<DataV>, i: int) -> Option<Seq<char>>
    decreases attrs.len() - i,
{
    if i < 0 || i >= attrs.len() {
        None
    } else {
        match find_data(d, attrs[i].name) {
            None => Some("Missing attribute '"@ + attrs[i].name + "'"@),
            Some(x) => if !typed(x.value, attrs[i].data_type) {
                Some("Type mismatch for '"@ + attrs[i].name + "', required '"@ + type_text(attrs[i].data_type)
                    + "' got '"@ + value_kind_text(x.value) + "'"@)
            } else {
                attr_error_from(attrs, d, i + 1)
            },
        }
    }
}

/// The first field, from index `i` on, that names no column of the table.
pub open spec fn unknown_field_from(t: TableV, d: Seq<DataV>, i: int) -> Option<Seq<char>>
    decreases d.len() - i,
{
    if i < 0 || i >= d.len() {
        None
    } else if !has_attr(t, d[i].name) {
        Some("Unknown attribute '"@ + d[i].name + "'"@)
    } else {
        unknown_field_from(t, d, i + 1)
    }
}

/// The error that validating a row for a table reports, if any.
pub open spec fn validation_error(t: TableV, d: Seq<DataV>) -> Option<Seq<char>> {
    match attr_error_from(t.attrs, d, 0) {
        Some(e) => Some(e),
        None => unknown_field_from(t, d, 0),
    }
}

impl Engine {
    /// Whether a row satisfies a condition. A comparison with a field that the
    /// row lacks, or with NULL on either side, is false.
    pub fn match_condition(&self, entity: &Entity, condition: &Condition) -> (r: bool)
        ensures
            r == row_matches(entity@, condition@),
        decreases condition,
    {
        match condition {
            Condition::Compare { attr, value, op } => match find_field(&entity.data, attr.as_str()) {
                None => false,
                Some(j) => compare_values(&entity.data[j].value, value, *op),
            },
            Condition::And(l, r) => self.match_condition(entity, l) && self.match_condition(entity, r),
            Condition::Or(l, r) => self.match_condition(entity, l) || self.match_condition(entity, r),
        }
    }

    /// Whether a row satisfies every condition.
    pub(crate) fn match_all(&self, entity: &Entity, conditions: &Vec<Condition>) -> (r: bool)
        ensures
            r == all_match(entity@, conditions_view(conditions@)),
    {
        let mut i: usize = 0;
        while i < conditions.len()
            invariant
                i <= conditions@.len(),
                forall|j: int| 0 <= j < i ==> row_matches(entity@, #[trigger] conditions_view(conditions@)[j]),
            decreases conditions@.len() - i,
        {
            if !self.match_condition(entity, &conditions[i]) {
                assert(!row_matches(entity@, conditions_view(conditions@)[i as int]));
                return false;
            }
            i = i + 1;
        }
        true
    }

    /// Assembles row `row` of a table from its columns.
    pub fn build_entity(&self, table: &Table, columns: &[Vec<Value>], row: usize) -> (r: Entity)
        requires
            columns@.len() >= table@.attrs.len(),
            forall|a: int| 0 <= a < table@.attrs.len() ==> row < #[trigger] columns@[a]@.len(),
        ensures
            r@ == row_entity(table@, columns_view(columns@), row as int),
    {
        let mut data: Vec<Data> = Vec::new();
        let mut a: usize = 0;
        while a < table.attrs.len()
            invariant
                a <= table@.attrs.len(),
                columns@.len() >= table@.attrs.len(),
                forall|x: int| 0 <= x < table@.attrs.len() ==> row < #[trigger] columns@[x]@.len(),
                data@.len() == a,
                data_view(data@) =~= row_entity(table@, columns_view(columns@), row as int).data.take(a as int),
            decreases table@.attrs.len() - a,
        {
            let v = columns[a][row].clone();
            assert(v@ == columns@[a as int]@[row as int]@);
            let nm = table.attrs[a].name.clone();
            assert(nm@ == table@.attrs[a as int].name);
            let ghost old_data = data@;
            data.push(Data { name: nm, value: v });
            assert(data@.len() == a + 1);
            proof {
                let re = row_entity(table@, columns_view(columns@), row as int);
                assert(table@.attrs[a as int] == table.attrs@[a as int]@);
                assert(columns_view(columns@)[a as int] == values_view(columns@[a as int]@));
                assert(values_view(columns@[a as int]@)[row as int] == columns@[a as int]@[row as int]@);
                assert(re.data[a as int] == data@[a as int]@);
                assert(data_view(data@) =~= data_view(old_data).push(data@[a as int]@));
            }
            a = a + 1;
        }
        assert(row_entity(table@, columns_view(columns@), row as int).data.take(a as int)
            =~= row_entity(table@, columns_view(columns@), row as int).data);
        Entity { of: table.name.clone(), data }
    }

    /// The rows of table `table_name` that satisfy every condition, with the
    /// fields named in `attrs` (all of them when `attrs` holds `*`), in row order.
    pub fn select(&self, table_name: &str, attrs: Vec<&str>, conditions: Vec<Condition>) -> (r: Result<
        Vec<Entity>,
        String,
    >)
        requires
            engine_wf(self@),
            table_aligned(self@, table_name@),
        ensures
            match r {
                Ok(rows) => select_spec(self@, table_name@, strs_view(attrs@), conditions_view(conditions@))
                    == Ok::<Seq<EntityV>, Seq<char>>(entities_view(rows@)),
                Err(e) => select_spec(self@, table_name@, strs_view(attrs@), conditions_view(conditions@))
                    == Err::<Seq<EntityV>, Seq<char>>(e@),
            },
    {
        let ti = match self.table_index(table_name) {
            None => {
                return Err(cat3("Table with name '", table_name, "' doesn't exists"));
            },
            Some(i) => i,
        };
        proof { lemma_table_idx(self@, table_name@, ti as int); }
        let table = &self.tables[ti];
        assert(table@ == self@.tables[ti as int]);
        let select_all = contains_str(&attrs, "*");
        if !select_all {
            let mut i: usize = 0;
            while i < attrs.len()
                invariant
                    i <= attrs@.len(),
                    !select_all,
                    select_all == strs_view(attrs@).contains("*"@),
                    has_table(self@, table_name@),
                    ti == table_idx(self@, table_name@),
                    table@ == self@.tables[ti as int],
                    unknown_attr_from(table@, strs_view(attrs@), 0) == unknown_attr_from(table@, strs_view(attrs@), i as int),
                decreases attrs@.len() - i,
            {
                assert(strs_view(attrs@)[i as int] == attrs@[i as int]@);
                if !table.attr_exists(attrs[i]) {
                    assert(!has_attr(table@, strs_view(attrs@)[i as int]));
                    return Err(cat4("Attribute '", attrs[i], "' doesn't exists in table ", table.name.as_str()));
                }
                proof {
                    let w = choose|w: int| 0 <= w < table.attrs@.len() && #[trigger] table.attrs@[w].name@ == attrs@[i as int]@;
                    assert(table@.attrs[w].name == strs_view(attrs@)[i as int]);
                }
                i = i + 1;
            }
        }
        let cols = &self.columns[ti];
        assert(columns_view(cols@) == self@.data[ti as int]);
        assert(cols@.len() == table@.attrs.len());
        if cols.len() == 0 {
            let none: Vec<Entity> = Vec::new();
            assert(entities_view(none@) =~= Seq::<EntityV>::empty());
            return Ok(none);
        }
        let rc = cols[0].len();
        let ghost cv = columns_view(cols@);
        let mut result: Vec<Entity> = Vec::new();
        let mut row: usize = 0;
        while row < rc
            invariant
                row <= rc,
                rc == row_count(cv),
                cv == columns_view(cols@),
                cols@.len() == table@.attrs.len(),
                aligned(cv),
                entities_view(result@) == selected_rows(table@, cv, conditions_view(conditions@), strs_view(attrs@), select_all, row as nat),
                select_all == strs_view(attrs@).contains("*"@),
            decreases rc - row,
        {
            proof {
                assert forall|a: int| 0 <= a < table@.attrs.len() implies row < #[trigger] cols@[a]@.len() by {
                    assert(cv[a].len() >= row_count(cv));
                }
            }
            let entity = self.build_entity(table, cols.as_slice(), row);
            let ghost prev = result@;
            if self.match_all(&entity, &conditions) {
                let of = entity.of;
                let data = if select_all { entity.data } else { project_fields(entity.data, &attrs) };
                result.push(Entity { of, data });
                assert(entities_view(result@) =~= entities_view(prev).push(result@[prev.len() as int]@));
            }
            row = row + 1;
        }
        Ok(result)
    }

    /// Appends a row to its table: each field's value is written to the column
    /// of its name.
    pub fn insert(&mut self, entity: &Entity) -> (r: Result<String, String>)
        requires
            engine_wf(old(self)@),
        ensures
            engine_wf(final(self)@),
            final(self)@ == insert_spec(old(self)@, entity@).0,
            match r {
                Ok(m) => insert_spec(old(self)@, entity@).1 == Ok::<Seq<char>, Seq<char>>(m@),
                Err(m) => insert_spec(old(self)@, entity@).1 == Err::<Seq<char>, Seq<char>>(m@),
            },
    {
        let ti = match self.table_index(entity.of.as_str()) {
            None => {
                return Err(cat3("Table '", entity.of.as_str(), "' doesn't exist"));
            },
            Some(i) => i,
        };
        proof { lemma_table_idx(self@, entity@.of, ti as int); }
        match self.validate_entity_data(&self.tables[ti], entity) {
            Err(e) => {
                return Err(e);
            },
            Ok(_) => {},
        }
        let ghost e0 = self@;
        let ghost t = e0.tables[ti as int];
        let mut j: usize = 0;
        assert(entity@.data.take(0) =~= Seq::<DataV>::empty());
        assert(e0.data.update(ti as int, e0.data[ti as int]) =~= e0.data);
        while j < entity.data.len()
            invariant
                j <= entity.data@.len(),
                e0 == old(self)@,
                has_table(e0, entity@.of),
                ti == table_idx(e0, entity@.of),
                ti < e0.tables.len(),
                t == e0.tables[ti as int],
                engine_wf(e0),
                validation_error(t, entity@.data) is None,
                untyped_field_from(t, entity@.data, 0) == untyped_field_from(t, entity@.data, j as int),
                self@ == (EngineV { tables: e0.tables, data: e0.data.update(ti as int, insert_columns(t, e0.data[ti as int], entity@.data.take(j as int))) }),
                engine_wf(self@),
            decreases entity.data@.len() - j,
        {
            let d = &entity.data[j];
            assert(entity@.data[j as int] == d@);
            let n = self.tables[ti].attrs.len();
            assert(self.tables@[ti as int]@ == t);
            assert(t.attrs.len() == n);
            // Every column of the field's name must take its value.
            let mut a: usize = 0;
            #[verifier::loop_isolation(false)]
            while a < n
                invariant
                    a <= n,
                    n == t.attrs.len(),
                    self.tables@[ti as int]@ == t,
                    ti < self.tables@.len(),
                    d@ == entity@.data[j as int],
                    forall|b: int| 0 <= b < a && #[trigger] t.attrs[b].name == d@.name ==> typed(d@.value, t.attrs[b].data_type),
                decreases n - a,
            {
                assert(self.tables@[ti as int]@.attrs == self.tables@[ti as int].attrs@.map_values(|x: Attr| x@));
                assert(self.tables@[ti as int].attrs@[a as int]@ == t.attrs[a as int]);
                let ty = self.tables[ti].attrs[a].data_type;
                if str_eq(self.tables[ti].attrs[a].name.as_str(), d.name.as_str()) && !is_typed(&d.value, ty) {
                    assert(t.attrs[a as int].name == d@.name);
                    assert(!typed(d@.value, t.attrs[a as int].data_type));
                    assert(!typed_for_name(t, d@));
                    assert(untyped_field_from(t, entity@.data, j as int) == Some(j as int));
                    return Err("Unreachable!".to_owned());
                }
                a = a + 1;
            }
            assert(typed_for_name(t, d@));
            let ghost before = self@;
            let ghost cb = before.data[ti as int];
            assert(append_named(t, cb, d@, 0) =~= cb);
            assert(before.data.update(ti as int, append_named(t, cb, d@, 0)) =~= before.data);
            let mut a: usize = 0;
            while a < n
                invariant
                    a <= n,
                    n == t.attrs.len(),
                    ti < e0.tables.len(),
                    t == e0.tables[ti as int],
                    self.tables@[ti as int]@ == t,
                    self.tables@.len() == e0.tables.len(),
                    self.columns@.len() == e0.tables.len(),
                    j < entity.data@.len(),
                    d@ == entity@.data[j as int],
                    typed_for_name(t, d@),
                    before.tables == e0.tables,
                    engine_wf(before),
                    cb == before.data[ti as int],
                    self@ == (EngineV { tables: before.tables, data: before.data.update(ti as int, append_named(t, cb, d@, a as int)) }),
                    engine_wf(self@),
                decreases n - a,
            {
                assert(self.tables@[ti as int]@.attrs == self.tables@[ti as int].attrs@.map_values(|x: Attr| x@));
                assert(self.tables@[ti as int].attrs@[a as int]@ == t.attrs[a as int]);
                let ty = self.tables[ti].attrs[a].data_type;
                if str_eq(self.tables[ti].attrs[a].name.as_str(), d.name.as_str()) {
                    assert(t.attrs[a as int].name == d@.name);
                    assert(typed(d@.value, ty));
                    let sv = stored_value(&d.value, ty);
                    proof { lemma_stored_typed(d@.value, ty); }
                    let ghost mid = self@;
                    assert(self.columns@.len() == self@.data.len());
                    assert(columns_view(self.columns@[ti as int]@) == self@.data[ti as int]);
                    assert(self.columns@[ti as int]@.len() == self@.data[ti as int].len());
                    let ghost old_cols = self.columns@;
                    self.columns[ti][a].push(sv);
                    assert(self.columns@ == old_cols.update(ti as int, self.columns@[ti as int]));
                    assert(self.columns@[ti as int]@ == old_cols[ti as int]@.update(a as int, self.columns@[ti as int]@[a as int]));
                    assert(self.columns@[ti as int]@[a as int]@ == old_cols[ti as int]@[a as int]@.push(sv));
                    assert(values_view(self.columns@[ti as int]@[a as int]@) =~= values_view(old_cols[ti as int]@[a as int]@).push(sv@));
                    proof {
                        assert(self@.tables == mid.tables);
                        assert(self@.data[ti as int] =~= mid.data[ti as int].update(a as int, mid.data[ti as int][a as int].push(sv@)));
                        assert(self@.data =~= mid.data.update(ti as int, self@.data[ti as int]));
                        assert(mid.data[ti as int][a as int] == cb[a as int]);
                        assert(append_named(t, cb, d@, a + 1) =~= mid.data[ti as int].update(a as int, mid.data[ti as int][a as int].push(sv@)));
                        assert(self@.data =~= before.data.update(ti as int, append_named(t, cb, d@, a + 1)));
                        lemma_wf_update_column(mid, ti as int, a as int, mid.data[ti as int][a as int].push(sv@));
                    }
                } else {
                    proof {
                        assert(append_named(t, cb, d@, a + 1) =~= append_named(t, cb, d@, a as int));
                    }
                }
                a = a + 1;
            }
            proof {
                assert(entity@.data.take(j + 1).drop_last() =~= entity@.data.take(j as int));
                assert(entity@.data.take(j + 1).last() == d@);
                assert(cb == insert_columns(t, e0.data[ti as int], entity@.data.take(j as int)));
                assert(cb.len() == n);
                assert(insert_columns(t, e0.data[ti as int], entity@.data.take(j + 1)) == append_named(t, cb, d@, n as int));
                assert(self@.data =~= e0.data.update(ti as int, insert_columns(t, e0.data[ti as int], entity@.data.take(j + 1))));
            }
            j = j + 1;
        }
        assert(entity@.data.take(j as int) =~= entity@.data);
        Ok("Sucessfully inserted 1 Row".to_owned())
    }

    /// Deletes the rows of table `table_name` that satisfy every condition and
    /// returns how many were deleted. The remaining rows are written back.
    pub fn delete(&mut self, table_name: &str, conditions: Vec<Condition>) -> (r: Result<usize, String>)
        requires
            engine_wf(old(self)@),
            table_aligned(old(self)@, table_name@),
        ensures
            engine_wf(final(self)@),
            final(self)@ == delete_spec(old(self)@, table_name@, conditions_view(conditions@)).0,
            match r {
                Ok(n) => delete_spec(old(self)@, table_name@, conditions_view(conditions@)).1 == Ok::<nat, Seq<char>>(n as nat),
                Err(m) => delete_spec(old(self)@, table_name@, conditions_view(conditions@)).1 == Err::<nat, Seq<char>>(m@),
            },
    {
        let ti = match self.table_index(table_name) {
            None => {
                return Err(cat3("Table with name '", table_name, "' doesn't exists"));
            },
            Some(i) => i,
        };
        proof { lemma_table_idx(self@, table_name@, ti as int); }
        let ghost e0 = self@;
        let ghost cs = conditions_view(conditions@);
        let table = &self.tables[ti];
        let cols = &self.columns[ti];
        let ghost t = table@;
        let ghost cv = columns_view(cols@);
        assert(cv == e0.data[ti as int]);
        assert(t == e0.tables[ti as int]);
        assert(cols@.len() == t.attrs.len());
        if cols.len() == 0 {
            return Ok(0);
        }
        let ncols = cols.len();
        let rc = cols[0].len();
        let mut new_columns: Vec<Vec<Value>> = Vec::new();
        let mut c: usize = 0;
        while c < ncols
            invariant
                c <= ncols,
                new_columns@.len() == c,
                forall|x: int| 0 <= x < c ==> (#[trigger] new_columns@[x])@.len() == 0,
            decreases ncols - c,
        {
            new_columns.push(Vec::new());
            c = c + 1;
        }
        proof {
            assert forall|x: int| 0 <= x < ncols implies values_view((#[trigger] new_columns@[x])@) == kept_column(t, cv, cs, x, 0) by {
                assert(values_view(new_columns@[x]@) =~= Seq::<ValueV>::empty());
            }
        }
        let mut deleted: usize = 0;
        let mut row: usize = 0;
        assert forall|a: int| 0 <= a < ncols implies all_typed(#[trigger] cv[a], t.attrs[a].data_type) by {
            assert(all_typed(e0.data[ti as int][a], e0.tables[ti as int].attrs[a].data_type));
        }
        while row < rc
            invariant
                row <= rc,
                rc == row_count(cv),
                ncols == cols@.len(),
                ncols == t.attrs.len(),
                ncols > 0,
                t == table@,
                cv == columns_view(cols@),
                cs == conditions_view(conditions@),
                aligned(cv),
                new_columns@.len() == ncols,
                forall|x: int| 0 <= x < ncols ==> values_view((#[trigger] new_columns@[x])@) == kept_column(t, cv, cs, x, row as nat),
                deleted == matched_rows(t, cv, cs, row as nat),
                deleted <= row,
                e0 == old(self)@,
                self@ == e0,
                ti < e0.tables.len(),
                has_table(e0, table_name@),
                ti == table_idx(e0, table_name@),
                t == e0.tables[ti as int],
                cv == e0.data[ti as int],
                engine_wf(e0),
                forall|a: int| 0 <= a < ncols ==> all_typed(#[trigger] cv[a], t.attrs[a].data_type),
            decreases rc - row,
        {
            proof {
                assert forall|a: int| 0 <= a < t.attrs.len() implies row < #[trigger] cols@[a]@.len() by {
                    assert(cv[a].len() >= row_count(cv));
                }
            }
            let entity = self.build_entity(table, cols.as_slice(), row);
            if self.match_all(&entity, &conditions) {
                deleted = deleted + 1;
                proof {
                    assert forall|x: int| 0 <= x < ncols implies values_view((#[trigger] new_columns@[x])@) == kept_column(t, cv, cs, x, (row + 1) as nat) by {
                    }
                }
            } else {
                let mut k: usize = 0;
                while k < ncols
                    invariant
                        k <= ncols,
                        ncols == cols@.len(),
                        ncols == t.attrs.len(),
                        t == table@,
                        cv == columns_view(cols@),
                        row < rc,
                        rc == row_count(cv),
                        aligned(cv),
                        !all_match(row_entity(t, cv, row as int), cs),
                        forall|a: int| 0 <= a < ncols ==> all_typed(#[trigger] cv[a], t.attrs[a].data_type),
                        new_columns@.len() == ncols,
                        forall|x: int| 0 <= x < k ==> values_view((#[trigger] new_columns@[x])@) == kept_column(t, cv, cs, x, (row + 1) as nat),
                        forall|x: int| k <= x < ncols ==> values_view((#[trigger] new_columns@[x])@) == kept_column(t, cv, cs, x, row as nat),
                    decreases ncols - k,
                {
                    assert(cv[k as int].len() >= row_count(cv));
                    let ty = table.attrs[k].data_type;
                    assert(ty == t.attrs[k as int].data_type);
                    assert(cv[k as int][row as int] == cols@[k as int]@[row as int]@);
                    assert(typed(cv[k as int][row as int], ty));
                    let v = stored_value(&cols[k][row], ty);
                    let ghost prevcols = new_columns@;
                    new_columns[k].push(v);
                    proof {
                        assert(values_view(new_columns@[k as int]@) =~= values_view(prevcols[k as int]@).push(v@));
                        assert forall|x: int| 0 <= x < ncols && x != k implies (#[trigger] new_columns@[x]) == prevcols[x] by {}
                    }
                    k = k + 1;
                }
            }
            row = row + 1;
        }
        proof {
            assert forall|a: int| 0 <= a < ncols implies all_typed(values_view((#[trigger] new_columns@[a])@), t.attrs[a].data_type) by {
                assert(cv[a].len() >= row_count(cv));
                lemma_kept_typed(t, cv, cs, a, rc as nat);
            }
            lemma_wf_update_table(e0, ti as int, columns_view(new_columns@));
        }
        let ghost nv = columns_view(new_columns@);
        self.columns.set(ti, new_columns);
        proof {
            assert(nv =~= Seq::new(cv.len(), |a: int| kept_column(t, cv, cs, a, row_count(cv))));
            assert(self@.tables == e0.tables);
            assert(self@.data =~= e0.data.update(ti as int, nv));
        }
        Ok(deleted)
    }

    /// Sets, in every row of table `table_name` that satisfies every condition,
    /// each named field to its new value, writes the columns back and returns how
    /// many rows were updated.
    pub fn update(&mut self, table_name: &str, updates: Vec<Data>, conditions: Vec<Condition>) -> (r: Result<
        usize,
        String,
    >)
        requires
            engine_wf(old(self)@),
            table_aligned(old(self)@, table_name@),
        ensures
            engine_wf(final(self)@),
            final(self)@ == update_spec(old(self)@, table_name@, data_view(updates@), conditions_view(conditions@)).0,
            match r {
                Ok(n) => update_spec(old(self)@, table_name@, data_view(updates@), conditions_view(conditions@)).1
                    == Ok::<nat, Seq<char>>(n as nat),
                Err(m) => update_spec(old(self)@, table_name@, data_view(updates@), conditions_view(conditions@)).1
                    == Err::<nat, Seq<char>>(m@),
            },
    {
        let ti = match self.table_index(table_name) {
            None => {
                return Err(cat3("Table with name '", table_name, "' doesn't exists"));
            },
            Some(i) => i,
        };
        proof { lemma_table_idx(self@, table_name@, ti as int); }
        let ghost e0 = self@;
        let ghost cs = conditions_view(conditions@);
        let ghost us = data_view(updates@);
        let ghost t = e0.tables[ti as int];
        let ghost cv = e0.data[ti as int];
        assert(self.tables@[ti as int]@ == t);
        assert(columns_view(self.columns@[ti as int]@) == cv);
        if self.columns[ti].len() == 0 {
            return Ok(0);
        }
        let n = self.columns[ti].len();
        let rc = self.columns[ti][0].len();
        let mut work = clone_columns(&self.columns[ti]);
        let mut updated: usize = 0;
        let mut row: usize = 0;
        assert forall|a: int| 0 <= a < n implies #[trigger] columns_view(work@)[a] =~= updated_upto(t, cv, cs, us, a, 0) by {}
        while row < rc
            invariant
                row <= rc,
                e0 == old(self)@,
                self@ == e0,
                engine_wf(e0),
                ti < e0.tables.len(),
                has_table(e0, table_name@),
                ti == table_idx(e0, table_name@),
                t == e0.tables[ti as int],
                t == self.tables@[ti as int]@,
                cv == e0.data[ti as int],
                cs == conditions_view(conditions@),
                us == data_view(updates@),
                n == cv.len(),
                n == t.attrs.len(),
                n > 0,
                rc == row_count(cv),
                aligned(cv),
                columns_view(work@).len() == n,
                forall|a: int| 0 <= a < n ==> #[trigger] columns_view(work@)[a] == updated_upto(t, cv, cs, us, a, row as int),
                updated == matched_rows(t, cv, cs, row as nat),
                updated <= row,
                matched_rows(t, cv, cs, row as nat) > 0 ==> unknown_update_from(t, us, 0) is None,
            decreases rc - row,
        {
            proof {
                assert forall|a: int| 0 <= a < t.attrs.len() implies row < #[trigger] work@[a]@.len() by {
                    assert(cv[a].len() >= row_count(cv));
                    assert(columns_view(work@)[a].len() == cv[a].len());
                }
                assert(row_entity(t, columns_view(work@), row as int) =~= row_entity(t, cv, row as int)) by {
                    assert forall|a: int| 0 <= a < t.attrs.len() implies #[trigger] columns_view(work@)[a][row as int] == cv[a][row as int] by {
                        assert(cv[a].len() >= row_count(cv));
                    }
                    assert(row_entity(t, columns_view(work@), row as int).data =~= row_entity(t, cv, row as int).data);
                }
            }
            let entity = self.build_entity(&self.tables[ti], work.as_slice(), row);
            if self.match_all(&entity, &conditions) {
                proof { lemma_matched_rows_bound(t, cv, cs, (row + 1) as nat); }
                updated = updated + 1;
                let mut i: usize = 0;
                proof {
                    assert forall|a: int| 0 <= a < n implies #[trigger] columns_view(work@)[a] =~= updated_mid(t, cv, cs, us, a, row as int, 0) by {
                        assert(us.take(0) =~= Seq::<DataV>::empty());
                    }
                }
                while i < updates.len()
                    invariant
                        i <= updates@.len(),
                        row < rc,
                        e0 == old(self)@,
                        self@ == e0,
                        t == self.tables@[ti as int]@,
                        ti < e0.tables.len(),
                        t == e0.tables[ti as int],
                        engine_wf(e0),
                        cv == e0.data[ti as int],
                        us == data_view(updates@),
                        cs == conditions_view(conditions@),
                        has_table(e0, table_name@),
                        ti == table_idx(e0, table_name@),
                        n == cv.len(),
                        n == t.attrs.len(),
                        n > 0,
                        rc == row_count(cv),
                        columns_view(work@).len() == n,
                        aligned(cv),
                        all_match(row_entity(t, cv, row as int), cs),
                        forall|a: int| 0 <= a < n ==> #[trigger] columns_view(work@)[a] == updated_mid(t, cv, cs, us, a, row as int, i as int),
                        unknown_update_from(t, us, 0) == unknown_update_from(t, us, i as int),
                    decreases updates@.len() - i,
                {
                    assert(us[i as int] == updates@[i as int]@);
                    let idx = match self.tables[ti].attrs_index(updates[i].name.as_str()) {
                        None => {
                            proof {
                                assert(!has_attr(t, us[i as int].name));
                                assert(matched_rows(t, cv, cs, (row + 1) as nat) >= 1);
                                lemma_matched_rows_monotone(t, cv, cs, (row + 1) as nat, rc as nat);
                            }
                            return Err(cat3("Unknown attribute '", updates[i].name.as_str(), "'"));
                        },
                        Some(k) => k,
                    };
                    proof {
                        lemma_attr_idx(t, us[i as int].name, idx as int);
                    }
                    let v = updates[i].value.clone();
                    let ghost prev = work@;
                    proof {
                        assert(columns_view(work@)[idx as int] == updated_mid(t, cv, cs, us, idx as int, row as int, i as int));
                        assert(columns_view(work@)[idx as int].len() == cv[idx as int].len());
                        assert(cv[idx as int].len() >= row_count(cv));
                    }
                    work[idx].set(row, v);
                    proof {
                        assert forall|a: int| 0 <= a < n implies #[trigger] columns_view(work@)[a] =~= updated_mid(t, cv, cs, us, a, row as int, i + 1) by {
                            if a == idx {
                                assert(values_view(work@[a]@) =~= values_view(prev[a]@).update(row as int, v@));
                                assert(v@ == us[i as int].value);
                            } else {
                                assert(work@[a] == prev[a]);
                            }
                            lemma_mid_step(t, cv, cs, us, a, row as int, i as int, columns_view(prev)[a], columns_view(work@)[a]);
                        }
                    }
                    i = i + 1;
                }
                proof {
                    assert(us.take(i as int) =~= us);
                    assert forall|a: int| 0 <= a < n implies #[trigger] columns_view(work@)[a] =~= updated_upto(t, cv, cs, us, a, row + 1) by {}
                }
            } else {
                proof {
                    assert forall|a: int| 0 <= a < n implies #[trigger] columns_view(work@)[a] =~= updated_upto(t, cv, cs, us, a, row + 1) by {}
                }
            }
            row = row + 1;
        }
        let ghost newc = columns_view(work@);
        proof {
            assert(newc =~= Seq::new(cv.len(), |a: int| updated_upto(t, cv, cs, us, a, row_count(cv) as int)));
            assert(bad_column_from(t, newc, 0) == bad_column_from(t, newc, 0));
        }
        let mut a: usize = 0;
        proof {
            assert(Seq::new(n as nat, |x: int| if x < 0 { stored_column(newc[x], t.attrs[x].data_type) } else { cv[x] }) =~= cv);
            assert(e0.data.update(ti as int, cv) =~= e0.data);
        }
        while a < n
            invariant
                a <= n,
                e0 == old(self)@,
                engine_wf(e0),
                ti < e0.tables.len(),
                has_table(e0, table_name@),
                ti == table_idx(e0, table_name@),
                t == e0.tables[ti as int],
                t == self.tables@[ti as int]@,
                cv == e0.data[ti as int],
                n == cv.len(),
                n == t.attrs.len(),
                newc == columns_view(work@),
                newc == Seq::new(cv.len(), |x: int| updated_upto(t, cv, cs, us, x, row_count(cv) as int)),
                cs == conditions_view(conditions@),
                us == data_view(updates@),
                newc.len() == n,
                bad_column_from(t, newc, 0) == bad_column_from(t, newc, a as int),
                self@.tables == e0.tables,
                self@.data == e0.data.update(ti as int, Seq::new(n as nat, |x: int| if x < a { stored_column(newc[x], t.attrs[x].data_type) } else { cv[x] })),
                self.columns@.len() == e0.tables.len(),
                updated == matched_rows(t, cv, cs, row_count(cv)),
                matched_rows(t, cv, cs, row_count(cv)) > 0 ==> unknown_update_from(t, us, 0) is None,
            decreases n - a,
        {
            let ty = self.tables[ti].attrs[a].data_type;
            assert(ty == t.attrs[a as int].data_type);
            assert(work@.len() == n);
            let len = work[a].len();
            assert(newc[a as int] == values_view(work@[a as int]@));
            let mut written: Vec<Value> = Vec::new();
            let mut i: usize = 0;
            let ghost before_scan = self@;
            assert(newc[a as int].take(0) =~= Seq::<ValueV>::empty());
            while i < len
                invariant
                    i <= len,
                    a < n,
                    newc == columns_view(work@),
                    newc.len() == n,
                    work@.len() == n,
                    len == newc[a as int].len(),
                    len == work@[a as int]@.len(),
                    values_view(written@) =~= stored_column(newc[a as int].take(i as int), ty),
                    first_untyped_from(newc[a as int], ty, 0) == first_untyped_from(newc[a as int], ty, i as int),
                    self@ == before_scan,
                ensures
                    self@ == before_scan,
                    i <= len,
                    i < len ==> !typed(newc[a as int][i as int], ty),
                    values_view(written@) =~= stored_column(newc[a as int].take(i as int), ty),
                    first_untyped_from(newc[a as int], ty, 0) == first_untyped_from(newc[a as int], ty, i as int),
                decreases len - i,
            {
                assert(newc[a as int][i as int] == work@[a as int]@[i as int]@);
                if !is_typed(&work[a][i], ty) {
                    break;
                }
                let sv = stored_value(&work[a][i], ty);
                let ghost pw = written@;
                written.push(sv);
                assert(newc[a as int].take(i + 1).drop_last() =~= newc[a as int].take(i as int));
                assert(stored_column(newc[a as int].take(i + 1), ty) =~= stored_column(newc[a as int].take(i as int), ty).push(stored(newc[a as int][i as int], ty)));
                assert(values_view(written@) =~= values_view(pw).push(sv@));
                i = i + 1;
            }
            let ghost before = self@;
            assert(self@.data[ti as int] == columns_view(self.columns@[ti as int]@));
            assert(self.columns@[ti as int]@.len() == n);
            proof { lemma_stored_column_typed(newc[a as int], ty); }
            let ghost before_cols = self.columns@;
            let ghost wv = values_view(written@);
            self.columns[ti].set(a, written);
            proof {
                assert(self.columns@ == before_cols.update(ti as int, self.columns@[ti as int]));
                assert(self.columns@[ti as int]@ == before_cols[ti as int]@.update(a as int, self.columns@[ti as int]@[a as int]));
                assert(values_view(self.columns@[ti as int]@[a as int]@) == wv);
                assert(self@.data[ti as int] =~= before.data[ti as int].update(a as int, wv));
                assert(self@.data =~= before.data.update(ti as int, self@.data[ti as int]));
                assert(self@.tables == before.tables);
            }
            if i < len {
                proof {
                    assert(first_untyped_from(newc[a as int], ty, i as int) == Some(i as int));
                    assert(bad_column_from(t, newc, a as int) == Some(a as int));
                    assert(bad_column_from(t, newc, 0) == Some(a as int));
                    assert(self@.data[ti as int] =~= written_columns(t, cv, newc));
                    assert(self@.data =~= e0.data.update(ti as int, written_columns(t, cv, newc)));
                    assert forall|x: int| 0 <= x < n implies all_typed(#[trigger] written_columns(t, cv, newc)[x], t.attrs[x].data_type) by {
                        lemma_stored_column_typed(newc[x], t.attrs[x].data_type);
                        if x > a {
                            assert(all_typed(e0.data[ti as int][x], e0.tables[ti as int].attrs[x].data_type));
                        }
                    }
                    lemma_wf_update_table(e0, ti as int, written_columns(t, cv, newc));
                }
                return Err("Type mismatch while writing column".to_owned());
            }
            proof {
                assert(newc[a as int].take(i as int) =~= newc[a as int]);
                assert(wv == stored_column(newc[a as int], t.attrs[a as int].data_type));
                let target = Seq::new(n as nat, |x: int| if x < a + 1 { stored_column(newc[x], t.attrs[x].data_type) } else { cv[x] });
                let prior = Seq::new(n as nat, |x: int| if x < a { stored_column(newc[x], t.attrs[x].data_type) } else { cv[x] });
                assert(before.data[ti as int] == prior);
                assert forall|x: int| 0 <= x < n implies #[trigger] self@.data[ti as int][x] == target[x] by {
                    if x != a {
                        assert(self@.data[ti as int][x] == prior[x]);
                    }
                }
                assert(self@.data[ti as int] =~= target);
                assert(first_untyped_from(newc[a as int], ty, len as int) is None);
                assert(self@.data =~= e0.data.update(ti as int, Seq::new(n as nat, |x: int| if x < a + 1 { stored_column(newc[x], t.attrs[x].data_type) } else { cv[x] })));
            }
            a = a + 1;
        }
        proof {
            assert(bad_column_from(t, newc, n as int) is None);
            assert(self@.data[ti as int] =~= written_columns(t, cv, newc));
            assert(self@.data =~= e0.data.update(ti as int, written_columns(t, cv, newc)));
            assert forall|x: int| 0 <= x < n implies all_typed(#[trigger] written_columns(t, cv, newc)[x], t.attrs[x].data_type) by {
                lemma_stored_column_typed(newc[x], t.attrs[x].data_type);
                lemma_bad_column_none(t, newc, 0, x);
                lemma_first_untyped_none(newc[x], t.attrs[x].data_type, 0);
            }
            lemma_wf_update_table(e0, ti as int, written_columns(t, cv, newc));
        }
        Ok(updated)
    }

    /// An engine with no tables.
    pub fn new() -> (r: Engine)
        ensures
            engine_wf(r@),
            r@.tables.len() == 0,
            r@.data.len() == 0,
    {
        let r = Engine { tables: Vec::new(), columns: Vec::new() };
        assert(r@.tables =~= Seq::<TableV>::empty());
        assert(r@.data =~= Seq::<Seq<Seq<ValueV>>>::empty());
        r
    }

    /// A copy of the table schemas.
    pub fn get_tables(&self) -> (r: Vec<Table>)
        ensures
            r@.map_values(|t: Table| t@) == self@.tables,
    {
        let mut out: Vec<Table> = Vec::new();
        let mut i: usize = 0;
        while i < self.tables.len()
            invariant
                i <= self.tables@.len(),
                out@.map_values(|t: Table| t@) =~= self@.tables.take(i as int),
            decreases self.tables@.len() - i,
        {
            let ghost p = out@;
            out.push(self.tables[i].clone());
            assert(out@.map_values(|t: Table| t@) =~= p.map_values(|t: Table| t@).push(self@.tables[i as int]));
            i = i + 1;
        }
        assert(self@.tables.take(i as int) =~= self@.tables);
        out
    }

    /// The names of the tables, in order; an error when there are none.
    pub fn list_tables(&self) -> (r: Result<Vec<String>, String>)
        ensures
            match r {
                Ok(names) => self@.tables.len() > 0 && names@.len() == self@.tables.len()
                    && forall|i: int| 0 <= i < names@.len() ==> #[trigger] names@[i]@ == self@.tables[i].name,
                Err(m) => self@.tables.len() == 0 && m@ == "No tables exist"@,
            },
    {
        if self.tables.len() == 0 {
            return Err("No tables exist".to_owned());
        }
        let mut names: Vec<String> = Vec::new();
        let mut i: usize = 0;
        while i < self.tables.len()
            invariant
                i <= self.tables@.len(),
                names@.len() == i,
                forall|j: int| 0 <= j < i ==> #[trigger] names@[j]@ == self@.tables[j].name,
            decreases self.tables@.len() - i,
        {
            names.push(self.tables[i].name.clone());
            i = i + 1;
        }
        Ok(names)
    }

    /// Creates a table with empty columns, unless a table of that name exists.
    pub fn create_table(&mut self, table: &Table) -> (r: Result<(), String>)
        requires
            engine_wf(old(self)@),
        ensures
            engine_wf(final(self)@),
            final(self)@ == create_spec(old(self)@, table@).0,
            match r {
                Ok(_) => create_spec(old(self)@, table@).1 is Ok,
                Err(m) => create_spec(old(self)@, table@).1 == Err::<(), Seq<char>>(m@),
            },
    {
        if self.table_exists(table.name.as_str()) {
            return Err(cat3("Table with name '", table.name.as_str(), "' already exists"));
        }
        let ghost e0 = self@;
        let mut cols: Vec<Vec<Value>> = Vec::new();
        let mut a: usize = 0;
        while a < table.attrs.len()
            invariant
                a <= table@.attrs.len(),
                columns_view(cols@) =~= Seq::new(a as nat, |x: int| Seq::<ValueV>::empty()),
            decreases table@.attrs.len() - a,
        {
            let ghost p = cols@;
            let c: Vec<Value> = Vec::new();
            assert(values_view(c@) =~= Seq::<ValueV>::empty());
            cols.push(c);
            assert(columns_view(cols@) =~= columns_view(p).push(Seq::<ValueV>::empty()));
            a = a + 1;
        }
        let ghost cv = columns_view(cols@);
        self.tables.push(table.clone());
        self.columns.push(cols);
        proof {
            assert(self@.tables =~= e0.tables.push(table@));
            assert(self@.data =~= e0.data.push(cv));
            assert(cv =~= Seq::new(table@.attrs.len(), |x: int| Seq::<ValueV>::empty()));
            let e = self@;
            assert forall|i: int, j: int| 0 <= i < e.tables.len() && 0 <= j < e.tables.len() && i != j
                implies #[trigger] e.tables[i].name != #[trigger] e.tables[j].name by {
                if i == e0.tables.len() as int {
                    assert(e0.tables[j].name != table@.name);
                } else if j == e0.tables.len() as int {
                    assert(e0.tables[i].name != table@.name);
                }
            }
            assert forall|t: int, b: int| 0 <= t < e.tables.len() && 0 <= b < e.tables[t].attrs.len()
                implies all_typed(#[trigger] e.data[t][b], e.tables[t].attrs[b].data_type) by {
                if t < e0.tables.len() {
                    assert(e.data[t] == e0.data[t]);
                }
            }
            assert forall|t: int| 0 <= t < e.tables.len() implies #[trigger] e.data[t].len() == e.tables[t].attrs.len() by {
                if t < e0.tables.len() {
                    assert(e.data[t] == e0.data[t]);
                }
            }
        }
        Ok(())
    }

    /// Drops a table and its columns, unless no table of that name exists.
    pub fn drop_table(&mut self, table_name: &str) -> (r: Result<(), String>)
        requires
            engine_wf(old(self)@),
        ensures
            engine_wf(final(self)@),
            final(self)@ == drop_spec(old(self)@, table_name@).0,
            match r {
                Ok(_) => drop_spec(old(self)@, table_name@).1 is Ok,
                Err(m) => drop_spec(old(self)@, table_name@).1 == Err::<(), Seq<char>>(m@),
            },
    {
        let ti = match self.table_index(table_name) {
            None => {
                return Err(cat3("Table with name '", table_name, "' doesnt exists"));
            },
            Some(i) => i,
        };
        proof { lemma_table_idx(self@, table_name@, ti as int); }
        let ghost e0 = self@;
        self.tables.remove(ti);
        self.columns.remove(ti);
        proof {
            assert(self@.tables =~= e0.tables.remove(ti as int));
            assert(self@.data =~= e0.data.remove(ti as int));
            let e = self@;
            assert forall|i: int, j: int| 0 <= i < e.tables.len() && 0 <= j < e.tables.len() && i != j
                implies #[trigger] e.tables[i].name != #[trigger] e.tables[j].name by {
                let oi = if i < ti { i } else { i + 1 };
                let oj = if j < ti { j } else { j + 1 };
                assert(e.tables[i] == e0.tables[oi]);
                assert(e.tables[j] == e0.tables[oj]);
            }
            assert forall|t: int, b: int| 0 <= t < e.tables.len() && 0 <= b < e.tables[t].attrs.len()
                implies all_typed(#[trigger] e.data[t][b], e.tables[t].attrs[b].data_type) by {
                let ot = if t < ti { t } else { t + 1 };
                assert(e.data[t] == e0.data[ot]);
                assert(e.tables[t] == e0.tables[ot]);
            }
            assert forall|t: int| 0 <= t < e.tables.len() implies #[trigger] e.data[t].len() == e.tables[t].attrs.len() by {
                let ot = if t < ti { t } else { t + 1 };
                assert(e.data[t] == e0.data[ot]);
                assert(e.tables[t] == e0.tables[ot]);
            }
        }
        Ok(())
    }

    /// Changes the columns of table `table_name`: adds a column (NULL in every
    /// existing row), drops every column of a name (unless the table has only
    /// one column), renames the first column of a name, or changes the type of
    /// the first column of a name, converting every value (all or nothing).
    pub fn alter_table(&mut self, table_name: &str, op: AlterOp) -> (r: Result<(), String>)
        requires
            engine_wf(old(self)@),
        ensures
            engine_wf(final(self)@),
            final(self)@ == alter_spec(old(self)@, table_name@, op@).0,
            match r {
                Ok(_) => alter_spec(old(self)@, table_name@, op@).1 is Ok,
                Err(m) => alter_spec(old(self)@, table_name@, op@).1 == Err::<(), Seq<char>>(m@),
            },
    {
        let ti = match self.table_index(table_name) {
            None => {
                return Err(cat3("Table '", table_name, "' doesn't exist"));
            },
            Some(i) => i,
        };
        proof { lemma_table_idx(self@, table_name@, ti as int); }
        match op {
            AlterOp::AddColumn(attr) => self.add_column(Ghost(table_name@), ti, attr),
            AlterOp::DropColumn(name) => self.drop_column(Ghost(table_name@), ti, name.as_str()),
            AlterOp::RenameColumn { from, to } => self.rename_column(Ghost(table_name@), ti, from.as_str(), to.as_str()),
            AlterOp::ModifyColumnType { name, new_type } => self.modify_column_type(Ghost(table_name@), ti, name.as_str(), new_type),
        }
    }

    fn add_column(&mut self, Ghost(tn): Ghost<Seq<char>>, ti: usize, attr: Attr) -> (r: Result<(), String>)
        requires
            engine_wf(old(self)@),
            has_table(old(self)@, tn),
            ti == table_idx(old(self)@, tn),
        ensures
            engine_wf(final(self)@),
            final(self)@ == alter_spec(old(self)@, tn, AlterOpV::AddColumn(attr@)).0,
            match r {
                Ok(_) => alter_spec(old(self)@, tn, AlterOpV::AddColumn(attr@)).1 is Ok,
                Err(m) => alter_spec(old(self)@, tn, AlterOpV::AddColumn(attr@)).1 == Err::<(), Seq<char>>(m@),
            },
    {
        let ghost e0 = self@;
        let ghost t = e0.tables[ti as int];
        let ghost cv = e0.data[ti as int];
        assert(self.tables@[ti as int]@ == t);
        assert(columns_view(self.columns@[ti as int]@) == cv);
        if self.tables[ti].attr_exists(attr.name.as_str()) {
            proof {
                let w = choose|w: int| 0 <= w < self.tables@[ti as int].attrs@.len() && #[trigger] self.tables@[ti as int].attrs@[w].name@ == attr.name@;
                assert(t.attrs[w].name == attr@.name);
            }
            return Err(cat5("Column '", attr.name.as_str(), "' already exists in table '", self.tables[ti].name.as_str(), "'"));
        }
        let rc: usize = if self.columns[ti].len() == 0 { 0 } else { self.columns[ti][0].len() };
        assert(rc == row_count(cv));
        let mut nulls: Vec<Value> = Vec::new();
        let mut i: usize = 0;
        while i < rc
            invariant
                i <= rc,
                values_view(nulls@) =~= Seq::new(i as nat, |k: int| ValueV::Null),
            decreases rc - i,
        {
            let ghost p = nulls@;
            nulls.push(Value::Null);
            assert(values_view(nulls@) =~= values_view(p).push(ValueV::Null));
            i = i + 1;
        }
        let ghost nv = values_view(nulls@);
        let ghost av = attr@;
        self.tables[ti].attrs.push(attr);
        self.columns[ti].push(nulls);
        proof {
            assert(self@.tables[ti as int] =~= TableV { name: t.name, attrs: t.attrs.push(av) }) by {
                assert(self@.tables[ti as int].attrs =~= t.attrs.push(av));
            }
            assert(self@.tables =~= e0.tables.update(ti as int, TableV { name: t.name, attrs: t.attrs.push(av) }));
            assert(self@.data[ti as int] =~= cv.push(nv));
            assert(self@.data =~= e0.data.update(ti as int, cv.push(Seq::new(row_count(cv), |k: int| ValueV::Null))));
            let e = self@;
            assert forall|t2: int, b: int| 0 <= t2 < e.tables.len() && 0 <= b < e.tables[t2].attrs.len()
                implies all_typed(#[trigger] e.data[t2][b], e.tables[t2].attrs[b].data_type) by {
                if t2 != ti {
                    assert(e.data[t2] == e0.data[t2]);
                } else if b < t.attrs.len() {
                    assert(e.data[t2][b] == cv[b]);
                }
            }
            assert forall|t2: int| 0 <= t2 < e.tables.len() implies #[trigger] e.data[t2].len() == e.tables[t2].attrs.len() by {
                if t2 != ti {
                    assert(e.data[t2] == e0.data[t2]);
                }
            }
            assert forall|i2: int, j2: int| 0 <= i2 < e.tables.len() && 0 <= j2 < e.tables.len() && i2 != j2
                implies #[trigger] e.tables[i2].name != #[trigger] e.tables[j2].name by {
                assert(e.tables[i2].name == e0.tables[i2].name);
                assert(e.tables[j2].name == e0.tables[j2].name);
            }
        }
        Ok(())
    }

    fn drop_column(&mut self, Ghost(tn): Ghost<Seq<char>>, ti: usize, col: &str) -> (r: Result<(), String>)
        requires
            engine_wf(old(self)@),
            has_table(old(self)@, tn),
            ti == table_idx(old(self)@, tn),
        ensures
            engine_wf(final(self)@),
            final(self)@ == alter_spec(old(self)@, tn, AlterOpV::DropColumn(col@)).0,
            match r {
                Ok(_) => alter_spec(old(self)@, tn, AlterOpV::DropColumn(col@)).1 is Ok,
                Err(m) => alter_spec(old(self)@, tn, AlterOpV::DropColumn(col@)).1 == Err::<(), Seq<char>>(m@),
            },
    {
        let ghost e0 = self@;
        let ghost t = e0.tables[ti as int];
        let ghost cv = e0.data[ti as int];
        assert(self.tables@[ti as int]@ == t);
        assert(columns_view(self.columns@[ti as int]@) == cv);
        let a = match self.tables[ti].attrs_index(col) {
            None => {
                return Err(cat5("Column '", col, "' doesn't exist in table '", self.tables[ti].name.as_str(), "'"));
            },
            Some(a) => a,
        };
        proof { lemma_attr_idx(t, col@, a as int); }
        if self.tables[ti].attrs.len() == 1 {
            return Err(cat3("Cannot drop the only column in table '", self.tables[ti].name.as_str(), "'; drop the table instead"));
        }
        let n = self.tables[ti].attrs.len();
        let mut b: usize = n;
        proof {
            assert(t.attrs.take(n as int) =~= t.attrs);
            assert(cv.take(n as int) =~= cv);
            assert(kept_attr_indices(t.attrs, col@, n as int) =~= Seq::<int>::empty());
            assert(self@.tables =~= e0.tables.update(ti as int, TableV {
                name: t.name,
                attrs: t.attrs.take(n as int) + kept_attr_indices(t.attrs, col@, n as int).map_values(|i: int| t.attrs[i]),
            }));
            assert(self@.data =~= e0.data.update(ti as int,
                cv.take(n as int) + kept_attr_indices(t.attrs, col@, n as int).map_values(|i: int| cv[i])));
        }
        while b > 0
            invariant
                b <= n,
                n == t.attrs.len(),
                n == cv.len(),
                ti < e0.tables.len(),
                t == e0.tables[ti as int],
                cv == e0.data[ti as int],
                engine_wf(e0),
                self.tables@.len() == e0.tables.len(),
                self.columns@.len() == e0.tables.len(),
                self@.tables == e0.tables.update(ti as int, TableV {
                    name: t.name,
                    attrs: t.attrs.take(b as int) + kept_attr_indices(t.attrs, col@, b as int).map_values(|i: int| t.attrs[i]),
                }),
                self@.data == e0.data.update(ti as int,
                    cv.take(b as int) + kept_attr_indices(t.attrs, col@, b as int).map_values(|i: int| cv[i])),
            decreases b,
        {
            b = b - 1;
            let ghost pt = self@.tables;
            let ghost pd = self@.data;
            let ghost ra = kept_attr_indices(t.attrs, col@, (b + 1) as int).map_values(|i: int| t.attrs[i]);
            let ghost rc = kept_attr_indices(t.attrs, col@, (b + 1) as int).map_values(|i: int| cv[i]);
            assert(pt[ti as int].attrs == t.attrs.take(b + 1) + ra);
            assert(pt[ti as int].attrs.len() >= b + 1);
            assert(self.tables@[ti as int]@ == pt[ti as int]);
            assert(self.tables@[ti as int]@.attrs[b as int] == t.attrs[b as int]);
            assert(self.tables@[ti as int]@.attrs == self.tables@[ti as int].attrs@.map_values(|x: Attr| x@));
            assert(b < self.tables@[ti as int].attrs@.len());
            assert(self.tables@[ti as int].attrs@[b as int]@ == t.attrs[b as int]);
            assert(pd[ti as int] == cv.take(b + 1) + rc);
            assert(pd[ti as int] == columns_view(self.columns@[ti as int]@));
            assert(self.columns@[ti as int]@.len() >= b + 1);
            let ghost pte = self.tables@;
            let ghost pce = self.columns@;
            if str_eq(self.tables[ti].attrs[b].name.as_str(), col) {
                self.tables[ti].attrs.remove(b);
                self.columns[ti].remove(b);
                proof {
                    assert forall|j: int| 0 <= j < self.tables@.len() && j != ti implies self.tables@[j] == pte[j] by {}
                    assert forall|j: int| 0 <= j < self.columns@.len() && j != ti implies self.columns@[j] == pce[j] by {}
                    assert forall|j: int| 0 <= j < self@.tables.len() && j != ti implies #[trigger] self@.tables[j] == pt[j] by {
                        assert(self@.tables[j] == self.tables@[j]@);
                        assert(pt[j] == pte[j]@);
                    }
                    assert forall|j: int| 0 <= j < self@.data.len() && j != ti implies #[trigger] self@.data[j] == pd[j] by {
                        assert(self@.data[j] == columns_view(self.columns@[j]@));
                        assert(pd[j] == columns_view(pce[j]@));
                    }
                    assert(self@.tables[ti as int].attrs =~= (t.attrs.take(b + 1) + ra).remove(b as int));
                    assert((t.attrs.take(b + 1) + ra).remove(b as int) =~= t.attrs.take(b as int) + ra) by {
                        let x = (t.attrs.take(b + 1) + ra).remove(b as int);
                        let y = t.attrs.take(b as int) + ra;
                        assert(x.len() == y.len());
                        assert forall|j: int| 0 <= j < x.len() implies x[j] == y[j] by {
                            if j >= b {
                                assert(x[j] == (t.attrs.take(b + 1) + ra)[j + 1]);
                            }
                        }
                    }
                    assert(t.attrs[b as int].name == col@);
                    assert(kept_attr_indices(t.attrs, col@, b as int) == kept_attr_indices(t.attrs, col@, (b + 1) as int));
                    assert(self@.tables[ti as int] == TableV {
                        name: t.name,
                        attrs: t.attrs.take(b as int) + kept_attr_indices(t.attrs, col@, b as int).map_values(|i: int| t.attrs[i]),
                    });
                    assert(self@.tables =~= e0.tables.update(ti as int, TableV {
                        name: t.name,
                        attrs: t.attrs.take(b as int) + kept_attr_indices(t.attrs, col@, b as int).map_values(|i: int| t.attrs[i]),
                    }));
                    assert(self@.data[ti as int] =~= (cv.take(b + 1) + rc).remove(b as int));
                    assert((cv.take(b + 1) + rc).remove(b as int) =~= cv.take(b as int) + rc) by {
                        let x = (cv.take(b + 1) + rc).remove(b as int);
                        let y = cv.take(b as int) + rc;
                        assert(x.len() == y.len());
                        assert forall|j: int| 0 <= j < x.len() implies x[j] == y[j] by {
                            if j >= b {
                                assert(x[j] == (cv.take(b + 1) + rc)[j + 1]);
                            }
                        }
                    }
                    assert(self@.data =~= e0.data.update(ti as int,
                        cv.take(b as int) + kept_attr_indices(t.attrs, col@, b as int).map_values(|i: int| cv[i])));
                }
            } else {
                proof {
                    let k = kept_attr_indices(t.attrs, col@, b as int);
                    assert(k =~= seq![b as int].add(kept_attr_indices(t.attrs, col@, (b + 1) as int)));
                    assert(k.map_values(|i: int| t.attrs[i]) =~= seq![t.attrs[b as int]] + ra);
                    assert(t.attrs.take(b + 1) + ra =~= t.attrs.take(b as int) + k.map_values(|i: int| t.attrs[i]));
                    assert(k.map_values(|i: int| cv[i]) =~= seq![cv[b as int]] + rc);
                    assert(cv.take(b + 1) + rc =~= cv.take(b as int) + k.map_values(|i: int| cv[i]));
                }
            }
        }
        proof {
            let k = kept_attr_indices(t.attrs, col@, 0);
            lemma_kept_attr_indices(t.attrs, col@, 0);
            assert(t.attrs.take(0) + k.map_values(|i: int| t.attrs[i]) =~= k.map_values(|i: int| t.attrs[i]));
            assert(cv.take(0) + k.map_values(|i: int| cv[i]) =~= k.map_values(|i: int| cv[i]));
            let e = self@;
            assert forall|t2: int, x: int| 0 <= t2 < e.tables.len() && 0 <= x < e.tables[t2].attrs.len()
                implies all_typed(#[trigger] e.data[t2][x], e.tables[t2].attrs[x].data_type) by {
                if t2 != ti {
                    assert(e.data[t2] == e0.data[t2]);
                } else {
                    assert(e.data[t2][x] == cv[k[x]]);
                    assert(e.tables[t2].attrs[x] == t.attrs[k[x]]);
                }
            }
            assert forall|t2: int| 0 <= t2 < e.tables.len() implies #[trigger] e.data[t2].len() == e.tables[t2].attrs.len() by {
                if t2 != ti {
                    assert(e.data[t2] == e0.data[t2]);
                }
            }
            assert forall|i2: int, j2: int| 0 <= i2 < e.tables.len() && 0 <= j2 < e.tables.len() && i2 != j2
                implies #[trigger] e.tables[i2].name != #[trigger] e.tables[j2].name by {
                assert(e.tables[i2].name == e0.tables[i2].name);
                assert(e.tables[j2].name == e0.tables[j2].name);
            }
        }
        Ok(())
    }

    fn rename_column(&mut self, Ghost(tn): Ghost<Seq<char>>, ti: usize, from: &str, to: &str) -> (r: Result<(), String>)
        requires
            engine_wf(old(self)@),
            has_table(old(self)@, tn),
            ti == table_idx(old(self)@, tn),
        ensures
            engine_wf(final(self)@),
            final(self)@ == alter_spec(old(self)@, tn, AlterOpV::RenameColumn { from: from@, to: to@ }).0,
            match r {
                Ok(_) => alter_spec(old(self)@, tn, AlterOpV::RenameColumn { from: from@, to: to@ }).1 is Ok,
                Err(m) => alter_spec(old(self)@, tn, AlterOpV::RenameColumn { from: from@, to: to@ }).1 == Err::<(), Seq<char>>(m@),
            },
    {
        let ghost e0 = self@;
        let ghost t = e0.tables[ti as int];
        assert(self.tables@[ti as int]@ == t);
        let a = match self.tables[ti].attrs_index(from) {
            None => {
                return Err(cat5("Column '", from, "' doesn't exist in table '", self.tables[ti].name.as_str(), "'"));
            },
            Some(a) => a,
        };
        proof { lemma_attr_idx(t, from@, a as int); }
        match self.tables[ti].attrs_index(to) {
            Some(b) => {
                proof { lemma_attr_idx(t, to@, b as int); }
                return Err(cat5("Column '", to, "' already exists in table '", self.tables[ti].name.as_str(), "'"));
            },
            None => {},
        }
        let new_name = to.to_owned();
        self.tables[ti].attrs[a].name = new_name;
        proof {
            let nt = rename_attr(t, a as int, to@);
            assert(self@.tables[ti as int] =~= nt) by {
                assert(self@.tables[ti as int].attrs =~= nt.attrs);
            }
            assert(self@.tables =~= e0.tables.update(ti as int, nt));
            assert(self@.data =~= e0.data);
            let e = self@;
            assert forall|t2: int, b: int| 0 <= t2 < e.tables.len() && 0 <= b < e.tables[t2].attrs.len()
                implies all_typed(#[trigger] e.data[t2][b], e.tables[t2].attrs[b].data_type) by {
                assert(e.tables[t2].attrs[b].data_type == e0.tables[t2].attrs[b].data_type);
            }
            assert forall|i2: int, j2: int| 0 <= i2 < e.tables.len() && 0 <= j2 < e.tables.len() && i2 != j2
                implies #[trigger] e.tables[i2].name != #[trigger] e.tables[j2].name by {
                assert(e.tables[i2].name == e0.tables[i2].name);
                assert(e.tables[j2].name == e0.tables[j2].name);
            }
        }
        Ok(())
    }

    fn modify_column_type(&mut self, Ghost(tn): Ghost<Seq<char>>, ti: usize, col: &str, new_type: Type) -> (r: Result<(), String>)
        requires
            engine_wf(old(self)@),
            has_table(old(self)@, tn),
            ti == table_idx(old(self)@, tn),
        ensures
            engine_wf(final(self)@),
            final(self)@ == alter_spec(old(self)@, tn, AlterOpV::ModifyColumnType { name: col@, new_type }).0,
            match r {
                Ok(_) => alter_spec(old(self)@, tn, AlterOpV::ModifyColumnType { name: col@, new_type }).1 is Ok,
                Err(m) => alter_spec(old(self)@, tn, AlterOpV::ModifyColumnType { name: col@, new_type }).1 == Err::<(), Seq<char>>(m@),
            },
    {
        let ghost e0 = self@;
        let ghost t = e0.tables[ti as int];
        let ghost cv = e0.data[ti as int];
        assert(self.tables@[ti as int]@ == t);
        assert(columns_view(self.columns@[ti as int]@) == cv);
        let a = match self.tables[ti].attrs_index(col) {
            None => {
                return Err(cat5("Column '", col, "' doesn't exist in table '", self.tables[ti].name.as_str(), "'"));
            },
            Some(a) => a,
        };
        proof { lemma_attr_idx(t, col@, a as int); }
        let ghost old_col = cv[a as int];
        assert(self.columns@.len() == e0.data.len());
        assert(self.columns@[ti as int]@.len() == cv.len());
        assert(cv.len() == t.attrs.len());
        assert(values_view(self.columns@[ti as int]@[a as int]@) == old_col);
        let len = self.columns[ti][a].len();
        let mut converted: Vec<Value> = Vec::new();
        let mut i: usize = 0;
        assert(old_col.take(0) =~= Seq::<ValueV>::empty());
        while i < len
            invariant
                i <= len,
                self@ == e0,
                e0 == old(self)@,
                engine_wf(e0),
                has_table(e0, tn),
                ti == table_idx(e0, tn),
                t == e0.tables[ti as int],
                has_attr(t, col@),
                a == attr_idx(t, col@),
                a < t.attrs.len(),
                ti < e0.tables.len(),
                a < e0.data[ti as int].len(),
                cv == e0.data[ti as int],
                old_col == cv[a as int],
                len == old_col.len(),
                values_view(self.columns@[ti as int]@[a as int]@) == old_col,
                self.columns@.len() == e0.data.len(),
                self.columns@[ti as int]@.len() == cv.len(),
                values_view(converted@) =~= stored_column(cast_column(old_col.take(i as int), new_type), new_type),
                cast_error_from(old_col, new_type, 0) == cast_error_from(old_col, new_type, i as int),
            decreases len - i,
        {
            assert(self.columns@[ti as int]@[a as int]@.len() == len);
            let v = self.columns[ti][a][i].clone();
            assert(v@ == old_col[i as int]);
            match v.cast_to(&new_type) {
                Err(m) => {
                    return Err(m);
                },
                Ok(c) => {
                    proof { lemma_cast_typed(old_col[i as int], new_type); }
                    let sv = stored_value(&c, new_type);
                    let ghost p = converted@;
                    converted.push(sv);
                    proof {
                        assert(old_col.take(i + 1) =~= old_col.take(i as int).push(old_col[i as int]));
                        assert(cast_column(old_col.take(i + 1), new_type) =~= cast_column(old_col.take(i as int), new_type).push(c@));
                        assert(values_view(converted@) =~= values_view(p).push(sv@));
                    }
                },
            }
            i = i + 1;
        }
        assert(old_col.take(i as int) =~= old_col);
        let ghost conv = values_view(converted@);
        proof { lemma_cast_column_typed(old_col, new_type); }
        self.tables[ti].attrs[a].data_type = new_type;
        self.columns[ti].set(a, converted);
        proof {
            let nt = retype_attr(t, a as int, new_type);
            assert(self@.tables[ti as int] =~= nt) by {
                assert(self@.tables[ti as int].attrs =~= nt.attrs);
            }
            assert(self@.tables =~= e0.tables.update(ti as int, nt));
            assert(self@.data[ti as int] =~= cv.update(a as int, conv));
            assert(self@.data =~= e0.data.update(ti as int, cv.update(a as int, conv)));
            let e = self@;
            lemma_stored_column_typed(cast_column(old_col, new_type), new_type);
            assert forall|t2: int, b: int| 0 <= t2 < e.tables.len() && 0 <= b < e.tables[t2].attrs.len()
                implies all_typed(#[trigger] e.data[t2][b], e.tables[t2].attrs[b].data_type) by {
                if t2 != ti {
                    assert(e.data[t2] == e0.data[t2]);
                } else if b != a {
                    assert(e.data[t2][b] == cv[b]);
                }
            }
            assert forall|t2: int| 0 <= t2 < e.tables.len() implies #[trigger] e.data[t2].len() == e.tables[t2].attrs.len() by {
                if t2 != ti {
                    assert(e.data[t2] == e0.data[t2]);
                }
            }
            assert forall|i2: int, j2: int| 0 <= i2 < e.tables.len() && 0 <= j2 < e.tables.len() && i2 != j2
                implies #[trigger] e.tables[i2].name != #[trigger] e.tables[j2].name by {
                assert(e.tables[i2].name == e0.tables[i2].name);
                assert(e.tables[j2].name == e0.tables[j2].name);
            }
        }
        Ok(())
    }

    /// An engine holding the given schemas and columns, when they satisfy the
    /// engine's invariant; `None` otherwise.
    pub fn from_parts(tables: Vec<Table>, columns: Vec<Vec<Vec<Value>>>) -> (r: Option<Engine>)
        ensures
            match r {
                Some(e) => engine_wf(e@) && e@.tables == tables@.map_values(|t: Table| t@)
                    && e@.data == columns@.map_values(|tc: Vec<Vec<Value>>| columns_view(tc@)),
                None => !engine_wf(EngineV {
                    tables: tables@.map_values(|t: Table| t@),
                    data: columns@.map_values(|tc: Vec<Vec<Value>>| columns_view(tc@)),
                }),
            },
    {
        let ghost tv = tables@.map_values(|t: Table| t@);
        let ghost dv = columns@.map_values(|tc: Vec<Vec<Value>>| columns_view(tc@));
        let e = Engine { tables, columns };
        assert(e@.tables == tv && e@.data == dv);
        assert(e@ == EngineV { tables: tv, data: dv });
        if e.columns.len() != e.tables.len() {
            return None;
        }
        let mut t: usize = 0;
        while t < e.tables.len()
            invariant
                t <= e@.tables.len(),
                tv == tables@.map_values(|t: Table| t@),
                dv == columns@.map_values(|tc: Vec<Vec<Value>>| columns_view(tc@)),
                e@.tables == tv,
                e@.data == dv,
                e@.data.len() == e@.tables.len(),
                e.columns@.len() == e.tables@.len(),
                forall|x: int| 0 <= x < t ==> #[trigger] e@.data[x].len() == e@.tables[x].attrs.len(),
                forall|x: int, b: int| 0 <= x < t && 0 <= b < e@.tables[x].attrs.len()
                    ==> all_typed(#[trigger] e@.data[x][b], e@.tables[x].attrs[b].data_type),
                forall|i: int, j: int| 0 <= i < t && 0 <= j < e@.tables.len() && i != j
                    ==> #[trigger] e@.tables[i].name != #[trigger] e@.tables[j].name,
            decreases e@.tables.len() - t,
        {
            let table = &e.tables[t];
            assert(table@ == e@.tables[t as int]);
            let cols = &e.columns[t];
            assert(columns_view(cols@) == e@.data[t as int]);
            if cols.len() != table.attrs.len() {
                assert(e@.data[t as int].len() != e@.tables[t as int].attrs.len());
                assert(e@ == EngineV { tables: tv, data: dv });
                assert(!engine_wf(e@));
                return None;
            }
            if !name_unique_at(&e.tables, t) {
                proof {
                    let j = choose|j: int| 0 <= j < e.tables@.len() && j != t && #[trigger] e.tables@[j]@.name == e.tables@[t as int]@.name;
                    assert(e@.tables[j] == e.tables@[j]@);
                    assert(e@.tables[j].name == e@.tables[t as int].name);
                    assert(e@ == EngineV { tables: tv, data: dv });
                    assert(!engine_wf(e@));
                }
                return None;
            }
            let mut a: usize = 0;
            while a < table.attrs.len()
                invariant
                    a <= table@.attrs.len(),
                    t < e@.tables.len(),
                    tv == tables@.map_values(|t: Table| t@),
                    dv == columns@.map_values(|tc: Vec<Vec<Value>>| columns_view(tc@)),
                    e@.tables == tv,
                    e@.data == dv,
                    t < e@.data.len(),
                    table@ == e@.tables[t as int],
                    columns_view(cols@) == e@.data[t as int],
                    cols@.len() == table@.attrs.len(),
                    forall|b: int| 0 <= b < a ==> all_typed(#[trigger] columns_view(cols@)[b], table@.attrs[b].data_type),
                decreases table@.attrs.len() - a,
            {
                assert(table@.attrs[a as int] == table.attrs@[a as int]@);
                if !column_typed(&cols[a], table.attrs[a].data_type) {
                    assert(!all_typed(e@.data[t as int][a as int], e@.tables[t as int].attrs[a as int].data_type));
                    assert(e@ == EngineV { tables: tv, data: dv });
                    assert(!engine_wf(e@));
                    return None;
                }
                a = a + 1;
            }
            t = t + 1;
        }
        Some(e)
    }

    /// Whether the rows of table `name`, if it exists, can be assembled: no column
    /// is shorter than the first.
    pub fn is_aligned(&self, name: &str) -> (r: bool)
        requires
            engine_wf(self@),
        ensures
            r == table_aligned(self@, name@),
    {
        match self.table_index(name) {
            None => true,
            Some(ti) => {
                proof { lemma_table_idx(self@, name@, ti as int); }
                let cols = &self.columns[ti];
                let ghost cv = columns_view(cols@);
                assert(cv == self@.data[ti as int]);
                if cols.len() == 0 {
                    return true;
                }
                let rc = cols[0].len();
                let mut a: usize = 0;
                while a < cols.len()
                    invariant
                        a <= cols@.len(),
                        cv == columns_view(cols@),
                        cv == self@.data[ti as int],
                        has_table(self@, name@),
                        ti == table_idx(self@, name@),
                        rc == row_count(cv),
                        forall|b: int| 0 <= b < a ==> #[trigger] cv[b].len() >= row_count(cv),
                    decreases cols@.len() - a,
                {
                    if cols[a].len() < rc {
                        assert(cv[a as int].len() < row_count(cv));
                        return false;
                    }
                    a = a + 1;
                }
                true
            },
        }
    }

    /// The columns of table `name`, in the order of its schema.
    pub fn table_columns(&self, name: &str) -> (r: Option<&Vec<Vec<Value>>>)
        requires
            engine_wf(self@),
        ensures
            match r {
                Some(c) => has_table(self@, name@) && columns_view(c@) == self@.data[table_idx(self@, name@)],
                None => !has_table(self@, name@),
            },
    {
        match self.table_index(name) {
            None => None,
            Some(ti) => {
                proof { lemma_table_idx(self@, name@, ti as int); }
                Some(&self.columns[ti])
            },
        }
    }

    /// The number of rows of `table`: the length of the stored column named
    /// like its first column; 0 for a table without columns.
    pub fn row_count(&self, table: &Table) -> (r: Result<usize, String>)
        requires
            engine_wf(self@),
        ensures
            match r {
                Ok(n) => row_count_spec(self@, table@) == Ok::<nat, Seq<char>>(n as nat),
                Err(m) => row_count_spec(self@, table@) == Err::<nat, Seq<char>>(m@),
            },
    {
        if table.attrs.len() == 0 {
            return Ok(0);
        }
        let ti = match self.table_index(table.name.as_str()) {
            Some(i) => i,
            None => return Err(cat3("Table with name '", table.name.as_str(), "' doesn't exists")),
        };
        proof { lemma_table_idx(self@, table@.name, ti as int); }
        let first = &table.attrs[0];
        assert(first@.name == table@.attrs[0].name);
        let cols = &self.columns[ti];
        let ghost cv = columns_view(cols@);
        assert(cv == self@.data[ti as int]);
        match self.tables[ti].attrs_index(first.name.as_str()) {
            Some(ai) => {
                proof { lemma_attr_idx(self@.tables[ti as int], first@.name, ai as int); }
                assert(cv[ai as int] == values_view(cols@[ai as int]@));
                Ok(cols[ai].len())
            },
            None => {
                let head = cat3("Attribute '", first.name.as_str(), "' doesn't exists in table ");
                Err(cat2(head.as_str(), table.name.as_str()))
            },
        }
    }

    /// Whether a table named `name` exists.
    pub fn table_exists(&self, name: &str) -> (r: bool)
        ensures
            r == has_table(self@, name@),
    {
        self.table_index(name).is_some()
    }

    /// Index of the first table named `name`.
    pub(crate) fn table_index(&self, name: &str) -> (r: Option<usize>)
        ensures
            match r {
                Some(i) => i < self@.tables.len() && self@.tables[i as int].name == name@
                    && forall|j: int| 0 <= j < i ==> #[trigger] self@.tables[j].name != name@,
                None => !has_table(self@, name@),
            },
    {
        let mut i: usize = 0;
        while i < self.tables.len()
            invariant
                i <= self.tables@.len(),
                forall|j: int| 0 <= j < i ==> #[trigger] self@.tables[j].name != name@,
            decreases self.tables@.len() - i,
        {
            if str_eq(self.tables[i].name.as_str(), name) {
                return Some(i);
            }
            i = i + 1;
        }
        None
    }

    /// The table named `name`, if there is one.
    pub fn get_table(&self, name: &str) -> (r: Option<&Table>)
        ensures
            match r {
                Some(t) => has_table(self@, name@) && t@.name == name@
                    && exists|i: int| 0 <= i < self@.tables.len() && self@.tables[i] == t@,
                None => !has_table(self@, name@),
            },
    {
        match self.table_index(name) {
            Some(i) => Some(&self.tables[i]),
            None => None,
        }
    }

    /// Checks that a row has a field of the right type for every column of the
    /// table, and no field that names no column.
    pub fn validate_entity_data(&self, table: &Table, entity: &Entity) -> (r: Result<(), String>)
        ensures
            match r {
                Ok(_) => validation_error(table@, entity@.data) is None,
                Err(e) => validation_error(table@, entity@.data) == Some(e@),
            },
    {
        let mut i: usize = 0;
        while i < table.attrs.len()
            invariant
                i <= table.attrs@.len(),
                attr_error_from(table@.attrs, entity@.data, 0) == attr_error_from(table@.attrs, entity@.data, i as int),
            decreases table.attrs@.len() - i,
        {
            let attr = &table.attrs[i];
            match find_field(&entity.data, attr.name.as_str()) {
                None => {
                    return Err(cat3("Missing attribute '", attr.name.as_str(), "'"));
                },
                Some(j) => {
                    let v = &entity.data[j].value;
                    let ok = match (attr.data_type, v) {
                        (_, Value::Null) => true,
                        (Type::Int, Value::Int(_)) => true,
                        (Type::VarChar(_), Value::VarChar(_)) => true,
                        _ => false,
                    };
                    if !ok {
                        let tt = attr.data_type.to_string();
                        let head = cat3("Type mismatch for '", attr.name.as_str(), "', required '");
                        return Err(cat5(head.as_str(), tt.as_str(), "' got '", v.kind_name(), "'"));
                    }
                },
            }
            i = i + 1;
        }
        let mut k: usize = 0;
        while k < entity.data.len()
            invariant
                k <= entity.data@.len(),
                attr_error_from(table@.attrs, entity@.data, 0) is None,
                unknown_field_from(table@, entity@.data, 0) == unknown_field_from(table@, entity@.data, k as int),
            decreases entity.data@.len() - k,
        {
            if !table.attr_exists(entity.data[k].name.as_str()) {
                assert(!has_attr(table@, entity@.data[k as int].name));
                return Err(cat3("Unknown attribute '", entity.data[k].name.as_str(), "'"));
            }
            proof {
                let w = choose|w: int| 0 <= w < table.attrs@.len() && #[trigger] table.attrs@[w].name@ == entity.data@[k as int].name@;
                assert(table@.attrs[w].name == entity@.data[k as int].name);
            }
            k = k + 1;
        }
        Ok(())
    }
}

pub open spec fn strs_view(v: Seq<&str>) -> Seq<Seq<char>> {
    v.map_values(|x: &str| x@)
}

/// The fields named in `attrs`, in their order in the row.
pub open spec fn project(d: Seq<DataV>, attrs: Seq<Seq<char>>) -> Seq<DataV>
    decreases d.len(),
{
    if d.len() == 0 {
        Seq::empty()
    } else if attrs.contains(d.last().name) {
        project(d.drop_last(), attrs).push(d.last())
    } else {
        project(d.drop_last(), attrs)
    }
}

/// The rows among the first `n` that satisfy every condition, each with all its
/// fields or with the fields named in `attrs`.
pub open spec fn selected_rows(
    t: TableV,
    cols: Seq<Seq<ValueV>>,
    cs: Seq<ConditionV>,
    attrs: Seq<Seq<char>>,
    all: bool,
    n: nat,
) -> Seq<EntityV>
    decreases n,
{
    if n == 0 {
        Seq::empty()
    } else {
        let prev = selected_rows(t, cols, cs, attrs, all, (n - 1) as nat);
        let e = row_entity(t, cols, n - 1);
        if all_match(e, cs) {
            prev.push(EntityV { of: e.of, data: if all { e.data } else { project(e.data, attrs) } })
        } else {
            prev
        }
    }
}

/// The first name, from index `i` on, that is not a column of the table.
pub open spec fn unknown_attr_from(t: TableV, attrs: Seq<Seq<char>>, i: int) -> Option<Seq<char>>
    decreases attrs.len() - i,
{
    if i < 0 || i >= attrs.len() {
        None
    } else if !has_attr(t, attrs[i]) {
        Some(attrs[i])
    } else {
        unknown_attr_from(t, attrs, i + 1)
    }
}

/// Result of selecting the rows of table `name` that satisfy every condition,
/// with the fields named in `attrs` (all of them when `attrs` holds `*`).
pub open spec fn select_spec(e: EngineV, name: Seq<char>, attrs: Seq<Seq<char>>, cs: Seq<ConditionV>) -> Result<
    Seq<EntityV>,
    Seq<char>,
> {
    if !has_table(e, name) {
        Err("Table with name '"@ + name + "' doesn't exists"@)
    } else {
        let ti = table_idx(e, name);
        let t = e.tables[ti];
        let all = attrs.contains("*"@);
        if !all && unknown_attr_from(t, attrs, 0) is Some {
            Err("Attribute '"@ + unknown_attr_from(t, attrs, 0).unwrap() + "' doesn't exists in table "@ + t.name)
        } else if t.attrs.len() == 0 {
            Ok(Seq::empty())
        } else {
            Ok(selected_rows(t, e.data[ti], cs, attrs, all, row_count(e.data[ti])))
        }
    }
}

/// Whether the table named `name`, if it exists, can have its rows assembled.
pub open spec fn table_aligned(e: EngineV, name: Seq<char>) -> bool {
    has_table(e, name) ==> aligned(e.data[table_idx(e, name)])
}

pub open spec fn entities_view(rows: Seq<Entity>) -> Seq<EntityV> {
    rows.map_values(|e: Entity| e@)
}

/// The number of rows of a table: the length of the stored column named like
/// its first column, 0 for a table without columns.
pub open spec fn row_count_spec(e: EngineV, t: TableV) -> Result<nat, Seq<char>> {
    if t.attrs.len() == 0 {
        Ok(0)
    } else if !has_table(e, t.name) {
        Err("Table with name '"@ + t.name + "' doesn't exists"@)
    } else {
        let ti = table_idx(e, t.name);
        let a = t.attrs[0].name;
        if !has_attr(e.tables[ti], a) {
            Err("Attribute '"@ + a + "' doesn't exists in table "@ + t.name)
        } else {
            Ok(e.data[ti][attr_idx(e.tables[ti], a)].len())
        }
    }
}

/// Two tables with the same name are the same table.
pub proof fn lemma_table_idx(e: EngineV, name: Seq<char>, i: int)
    requires
        engine_wf(e),
        0 <= i < e.tables.len(),
        e.tables[i].name == name,
    ensures
        has_table(e, name),
        table_idx(e, name) == i,
{
    assert(has_table(e, name));
    let j = table_idx(e, name);
    if j != i {
        assert(e.tables[i].name != e.tables[j].name);
    }
}


/// The fields of `data` named in `attrs`, in order.
pub fn project_fields(data: Vec<Data>, attrs: &Vec<&str>) -> (r: Vec<Data>)
    ensures
        data_view(r@) == project(data_view(data@), strs_view(attrs@)),
{
    let mut out: Vec<Data> = Vec::new();
    let mut i: usize = 0;
    while i < data.len()
        invariant
            i <= data@.len(),
            data_view(out@) == project(data_view(data@).take(i as int), strs_view(attrs@)),
        decreases data@.len() - i,
    {
        let keep = contains_str(attrs, data[i].name.as_str());
        let ghost prev = out@;
        assert(data_view(data@).take(i + 1).drop_last() =~= data_view(data@).take(i as int));
        assert(data_view(data@).take(i + 1).last() == data@[i as int]@);
        if keep {
            out.push(data[i].clone());
            assert(data_view(out@) =~= data_view(prev).push(data@[i as int]@));
        }
        i = i + 1;
    }
    assert(data_view(data@).take(i as int) =~= data_view(data@));
    out
}

/// The columns after the value of field `x` is appended to each of the first
/// `k` columns named like it, stored for that column's type.
pub open spec fn append_named(t: TableV, cols: Seq<Seq<ValueV>>, x: DataV, k: int) -> Seq<Seq<ValueV>> {
    Seq::new(
        cols.len(),
        |a: int|
            if a < k && t.attrs[a].name == x.name {
                cols[a].push(stored(x.value, t.attrs[a].data_type))
            } else {
                cols[a]
            },
    )
}

/// The columns after appending the fields of a row, in field order, each to
/// every column of its name: columns of one name share what is written to them.
pub open spec fn insert_columns(t: TableV, cols: Seq<Seq<ValueV>>, d: Seq<DataV>) -> Seq<Seq<ValueV>>
    decreases d.len(),
{
    if d.len() == 0 {
        cols
    } else {
        let prev = insert_columns(t, cols, d.drop_last());
        append_named(t, prev, d.last(), prev.len() as int)
    }
}

/// Whether the value of field `x` fits every column of its name.
pub open spec fn typed_for_name(t: TableV, x: DataV) -> bool {
    forall|a: int| 0 <= a < t.attrs.len() && #[trigger] t.attrs[a].name == x.name ==> typed(x.value, t.attrs[a].data_type)
}

/// The first field, from index `i` on, whose value does not fit a column it names.
pub open spec fn untyped_field_from(t: TableV, d: Seq<DataV>, i: int) -> Option<int>
    decreases d.len() - i,
{
    if i < 0 || i >= d.len() {
        None
    } else if !typed_for_name(t, d[i]) {
        Some(i)
    } else {
        untyped_field_from(t, d, i + 1)
    }
}

/// Result of inserting a row: the new state and the message, or the error and
/// the state that the failed insert leaves.
pub open spec fn insert_spec(e: EngineV, row: EntityV) -> (EngineV, Result<Seq<char>, Seq<char>>) {
    if !has_table(e, row.of) {
        (e, Err("Table '"@ + row.of + "' doesn't exist"@))
    } else {
        let ti = table_idx(e, row.of);
        let t = e.tables[ti];
        match validation_error(t, row.data) {
            Some(err) => (e, Err(err)),
            None => match untyped_field_from(t, row.data, 0) {
                // a field repeated with a value of another type: the fields before it are written
                Some(k) => (
                    EngineV { tables: e.tables, data: e.data.update(ti, insert_columns(t, e.data[ti], row.data.take(k))) },
                    Err("Unreachable!"@),
                ),
                None => (
                    EngineV { tables: e.tables, data: e.data.update(ti, insert_columns(t, e.data[ti], row.data)) },
                    Ok("Sucessfully inserted 1 Row"@),
                ),
            },
        }
    }
}

/// Number of rows among the first `n` that satisfy every condition.
pub open spec fn matched_rows(t: TableV, cols: Seq<Seq<ValueV>>, cs: Seq<ConditionV>, n: nat) -> nat
    decreases n,
{
    if n == 0 {
        0
    } else {
        matched_rows(t, cols, cs, (n - 1) as nat) + if all_match(row_entity(t, cols, n - 1), cs) { 1nat } else { 0nat }
    }
}

/// Column `a` rewritten with the rows among the first `n` that do not satisfy
/// every condition.
pub open spec fn kept_column(t: TableV, cols: Seq<Seq<ValueV>>, cs: Seq<ConditionV>, a: int, n: nat) -> Seq<ValueV>
    decreases n,
{
    if n == 0 {
        Seq::empty()
    } else {
        let prev = kept_column(t, cols, cs, a, (n - 1) as nat);
        if all_match(row_entity(t, cols, n - 1), cs) {
            prev
        } else {
            prev.push(stored(cols[a][n - 1], t.attrs[a].data_type))
        }
    }
}

/// Result of deleting the rows of table `name` that satisfy every condition:
/// the new state, and the number of rows deleted or the error.
pub open spec fn delete_spec(e: EngineV, name: Seq<char>, cs: Seq<ConditionV>) -> (EngineV, Result<nat, Seq<char>>) {
    if !has_table(e, name) {
        (e, Err("Table with name '"@ + name + "' doesn't exists"@))
    } else {
        let ti = table_idx(e, name);
        let t = e.tables[ti];
        let cols = e.data[ti];
        if t.attrs.len() == 0 {
            (e, Ok(0))
        } else {
            (
                EngineV {
                    tables: e.tables,
                    data: e.data.update(ti, Seq::new(cols.len(), |a: int| kept_column(t, cols, cs, a, row_count(cols)))),
                },
                Ok(matched_rows(t, cols, cs, row_count(cols))),
            )
        }
    }
}

/// The value that the updates give column `a` of table `t` whose value was
/// `old`: that of the last update whose name stands for column `a` (the first
/// column of that name), or `old` when none does.
pub open spec fn apply_updates(t: TableV, us: Seq<DataV>, a: int, old: ValueV) -> ValueV
    decreases us.len(),
{
    if us.len() == 0 {
        old
    } else if has_attr(t, us.last().name) && attr_idx(t, us.last().name) == a {
        us.last().value
    } else {
        apply_updates(t, us.drop_last(), a, old)
    }
}

/// Column `a` with the updates applied to the rows below `k` that satisfy
/// every condition.
pub open spec fn updated_upto(
    t: TableV,
    cols: Seq<Seq<ValueV>>,
    cs: Seq<ConditionV>,
    us: Seq<DataV>,
    a: int,
    k: int,
) -> Seq<ValueV> {
    Seq::new(
        cols[a].len(),
        |r: int|
            if r < k && all_match(row_entity(t, cols, r), cs) {
                apply_updates(t, us, a, cols[a][r])
            } else {
                cols[a][r]
            },
    )
}

/// The first update, from index `i` on, that names no column of the table.
pub open spec fn unknown_update_from(t: TableV, us: Seq<DataV>, i: int) -> Option<Seq<char>>
    decreases us.len() - i,
{
    if i < 0 || i >= us.len() {
        None
    } else if !has_attr(t, us[i].name) {
        Some(us[i].name)
    } else {
        unknown_update_from(t, us, i + 1)
    }
}

/// Index of the first value, from index `i` on, that does not fit type `ty`.
pub open spec fn first_untyped_from(col: Seq<ValueV>, ty: Type, i: int) -> Option<int>
    decreases col.len() - i,
{
    if i < 0 || i >= col.len() {
        None
    } else if !typed(col[i], ty) {
        Some(i)
    } else {
        first_untyped_from(col, ty, i + 1)
    }
}

/// Index of the first column, from index `a` on, that holds a value not fitting its type.
pub open spec fn bad_column_from(t: TableV, cols: Seq<Seq<ValueV>>, a: int) -> Option<int>
    decreases cols.len() - a,
{
    if a < 0 || a >= cols.len() {
        None
    } else if first_untyped_from(cols[a], t.attrs[a].data_type, 0) is Some {
        Some(a)
    } else {
        bad_column_from(t, cols, a + 1)
    }
}

/// What reading back a column written with `col` gives.
pub open spec fn stored_column(col: Seq<ValueV>, ty: Type) -> Seq<ValueV> {
    col.map_values(|v: ValueV| stored(v, ty))
}

/// The columns after writing `newc` back column by column: writing stops at the
/// first value that does not fit its column, which keeps the values before it,
/// and leaves the columns after it as they were (`old`).
pub open spec fn written_columns(t: TableV, old: Seq<Seq<ValueV>>, newc: Seq<Seq<ValueV>>) -> Seq<Seq<ValueV>> {
    match bad_column_from(t, newc, 0) {
        None => Seq::new(newc.len(), |a: int| stored_column(newc[a], t.attrs[a].data_type)),
        Some(b) => Seq::new(
            newc.len(),
            |a: int|
                if a < b {
                    stored_column(newc[a], t.attrs[a].data_type)
                } else if a == b {
                    stored_column(
                        newc[a].take(first_untyped_from(newc[a], t.attrs[a].data_type, 0).unwrap()),
                        t.attrs[a].data_type,
                    )
                } else {
                    old[a]
                },
        ),
    }
}

/// Result of updating the rows of table `name` that satisfy every condition:
/// the new state, and the number of rows updated or the error.
pub open spec fn update_spec(e: EngineV, name: Seq<char>, us: Seq<DataV>, cs: Seq<ConditionV>) -> (
    EngineV,
    Result<nat, Seq<char>>,
) {
    if !has_table(e, name) {
        (e, Err("Table with name '"@ + name + "' doesn't exists"@))
    } else {
        let ti = table_idx(e, name);
        let t = e.tables[ti];
        let cols = e.data[ti];
        let m = matched_rows(t, cols, cs, row_count(cols));
        if t.attrs.len() == 0 {
            (e, Ok(0))
        } else if m > 0 && unknown_update_from(t, us, 0) is Some {
            (e, Err("Unknown attribute '"@ + unknown_update_from(t, us, 0).unwrap() + "'"@))
        } else {
            let newc = Seq::new(cols.len(), |a: int| updated_upto(t, cols, cs, us, a, row_count(cols) as int));
            (
                EngineV { tables: e.tables, data: e.data.update(ti, written_columns(t, cols, newc)) },
                if bad_column_from(t, newc, 0) is Some {
                    Err("Type mismatch while writing column"@)
                } else {
                    Ok(m)
                },
            )
        }
    }
}

/// Column `a` while the updates are applied to row `row`, which satisfies every
/// condition: the first `i` updates are applied to it.
pub open spec fn updated_mid(
    t: TableV,
    cols: Seq<Seq<ValueV>>,
    cs: Seq<ConditionV>,
    us: Seq<DataV>,
    a: int,
    row: int,
    i: int,
) -> Seq<ValueV> {
    Seq::new(
        cols[a].len(),
        |r: int|
            if r < row && all_match(row_entity(t, cols, r), cs) {
                apply_updates(t, us, a, cols[a][r])
            } else if r == row {
                apply_updates(t, us.take(i), a, cols[a][r])
            } else {
                cols[a][r]
            },
    )
}

proof fn lemma_matched_rows_monotone(t: TableV, cols: Seq<Seq<ValueV>>, cs: Seq<ConditionV>, n: nat, m: nat)
    requires
        n <= m,
    ensures
        matched_rows(t, cols, cs, n) <= matched_rows(t, cols, cs, m),
    decreases m - n,
{
    if n < m {
        lemma_matched_rows_monotone(t, cols, cs, n, (m - 1) as nat);
    }
}

proof fn lemma_matched_rows_bound(t: TableV, cols: Seq<Seq<ValueV>>, cs: Seq<ConditionV>, n: nat)
    ensures
        matched_rows(t, cols, cs, n) <= n,
    decreases n,
{
    if n > 0 {
        lemma_matched_rows_bound(t, cols, cs, (n - 1) as nat);
    }
}

proof fn lemma_stored_column_typed(col: Seq<ValueV>, ty: Type)
    ensures
        all_typed(col, ty) ==> all_typed(stored_column(col, ty), ty),
        forall|i: int| 0 <= i <= col.len() && first_untyped_from(col, ty, 0) == first_untyped_from(col, ty, i)
            ==> all_typed(#[trigger] stored_column(col.take(i), ty), ty),
{
    assert forall|i: int| 0 <= i <= col.len() && first_untyped_from(col, ty, 0) == first_untyped_from(col, ty, i)
        implies all_typed(#[trigger] stored_column(col.take(i), ty), ty) by {
        assert forall|k: int| 0 <= k < i implies typed(#[trigger] stored_column(col.take(i), ty)[k], ty) by {
            lemma_first_untyped_prefix(col, ty, 0, i, k);
            lemma_stored_typed(col[k], ty);
        }
    }
    assert forall|k: int| all_typed(col, ty) && 0 <= k < col.len() implies typed(#[trigger] stored_column(col, ty)[k], ty) by {
        lemma_stored_typed(col[k], ty);
    }
}

proof fn lemma_first_untyped_prefix(col: Seq<ValueV>, ty: Type, j: int, i: int, k: int)
    requires
        0 <= j <= k < i <= col.len(),
        first_untyped_from(col, ty, j) == first_untyped_from(col, ty, i),
    ensures
        typed(col[k], ty),
    decreases k - j,
{
    if j < k {
        if !typed(col[j], ty) {
            lemma_first_untyped_ge(col, ty, i);
        } else {
            lemma_first_untyped_prefix(col, ty, j + 1, i, k);
        }
    } else {
        if !typed(col[j], ty) {
            lemma_first_untyped_ge(col, ty, i);
        }
    }
}

proof fn lemma_first_untyped_ge(col: Seq<ValueV>, ty: Type, i: int)
    requires
        0 <= i,
    ensures
        first_untyped_from(col, ty, i) matches Some(x) ==> x >= i,
    decreases col.len() - i,
{
    if i < col.len() && typed(col[i], ty) {
        lemma_first_untyped_ge(col, ty, i + 1);
    }
}

proof fn lemma_bad_column_none(t: TableV, cols: Seq<Seq<ValueV>>, a: int, x: int)
    requires
        0 <= a <= x < cols.len(),
        bad_column_from(t, cols, a) is None,
    ensures
        first_untyped_from(cols[x], t.attrs[x].data_type, 0) is None,
    decreases x - a,
{
    if a < x {
        lemma_bad_column_none(t, cols, a + 1, x);
    }
}

proof fn lemma_first_untyped_none(col: Seq<ValueV>, ty: Type, i: int)
    requires
        0 <= i,
        first_untyped_from(col, ty, i) is None,
    ensures
        forall|k: int| i <= k < col.len() ==> typed(#[trigger] col[k], ty),
    decreases col.len() - i,
{
    if i < col.len() {
        lemma_first_untyped_none(col, ty, i + 1);
    }
}

proof fn lemma_mid_step(
    t: TableV,
    cv: Seq<Seq<ValueV>>,
    cs: Seq<ConditionV>,
    us: Seq<DataV>,
    a: int,
    row: int,
    i: int,
    old_col: Seq<ValueV>,
    new_col: Seq<ValueV>,
)
    requires
        0 <= a < cv.len(),
        0 <= a < t.attrs.len(),
        0 <= row < cv[a].len(),
        0 <= i < us.len(),
        old_col == updated_mid(t, cv, cs, us, a, row, i),
        new_col == (if has_attr(t, us[i].name) && attr_idx(t, us[i].name) == a { old_col.update(row, us[i].value) } else { old_col }),
    ensures
        new_col =~= updated_mid(t, cv, cs, us, a, row, i + 1),
{
    assert(us.take(i + 1).drop_last() =~= us.take(i));
    assert(us.take(i + 1).last() == us[i]);
    let m = updated_mid(t, cv, cs, us, a, row, i + 1);
    assert forall|r: int| 0 <= r < new_col.len() implies new_col[r] == m[r] by {
        if r == row {
        } else {
            assert(new_col[r] == old_col[r]);
        }
    }
}

/// Result of creating a table: it is added after the existing ones with empty
/// columns, unless a table of that name exists.
pub open spec fn create_spec(e: EngineV, t: TableV) -> (EngineV, Result<(), Seq<char>>) {
    if has_table(e, t.name) {
        (e, Err("Table with name '"@ + t.name + "' already exists"@))
    } else {
        (
            EngineV { tables: e.tables.push(t), data: e.data.push(Seq::new(t.attrs.len(), |a: int| Seq::<ValueV>::empty())) },
            Ok(()),
        )
    }
}

/// Result of dropping a table: it is removed with its columns, unless no table
/// of that name exists.
pub open spec fn drop_spec(e: EngineV, name: Seq<char>) -> (EngineV, Result<(), Seq<char>>) {
    if !has_table(e, name) {
        (e, Err("Table with name '"@ + name + "' doesnt exists"@))
    } else {
        let ti = table_idx(e, name);
        (EngineV { tables: e.tables.remove(ti), data: e.data.remove(ti) }, Ok(()))
    }
}

/// The first value, from index `i` on, that cannot be converted to `ty`, and why.
pub open spec fn cast_error_from(col: Seq<ValueV>, ty: Type, i: int) -> Option<Seq<char>>
    decreases col.len() - i,
{
    if i < 0 || i >= col.len() {
        None
    } else {
        match cast_spec(col[i], ty) {
            Err(m) => Some(m),
            Ok(_) => cast_error_from(col, ty, i + 1),
        }
    }
}

/// The values of a column converted to `ty`.
pub open spec fn cast_column(col: Seq<ValueV>, ty: Type) -> Seq<ValueV> {
    col.map_values(|v: ValueV| cast_value(v, ty))
}

/// A value converted to `ty`, when it can be.
pub open spec fn cast_value(v: ValueV, ty: Type) -> ValueV {
    match cast_spec(v, ty) {
        Ok(x) => x,
        Err(_) => v,
    }
}

/// Table `t` with column `a` renamed to `to`.
pub open spec fn rename_attr(t: TableV, a: int, to: Seq<char>) -> TableV {
    TableV { name: t.name, attrs: t.attrs.update(a, AttrV { name: to, data_type: t.attrs[a].data_type }) }
}

/// Table `t` with column `a` of type `ty`.
pub open spec fn retype_attr(t: TableV, a: int, ty: Type) -> TableV {
    TableV { name: t.name, attrs: t.attrs.update(a, AttrV { name: t.attrs[a].name, data_type: ty }) }
}

/// The indexes, from `a` on, of the columns not named `c`, in order.
pub open spec fn kept_attr_indices(attrs: Seq<AttrV>, c: Seq<char>, a: int) -> Seq<int>
    decreases attrs.len() - a,
{
    if a < 0 || a >= attrs.len() {
        Seq::empty()
    } else if attrs[a].name == c {
        kept_attr_indices(attrs, c, a + 1)
    } else {
        seq![a].add(kept_attr_indices(attrs, c, a + 1))
    }
}

proof fn lemma_kept_attr_indices(attrs: Seq<AttrV>, c: Seq<char>, a: int)
    requires
        0 <= a,
    ensures
        forall|j: int| 0 <= j < kept_attr_indices(attrs, c, a).len()
            ==> a <= #[trigger] kept_attr_indices(attrs, c, a)[j] < attrs.len(),
    decreases attrs.len() - a,
{
    if a < attrs.len() {
        lemma_kept_attr_indices(attrs, c, a + 1);
        let r = kept_attr_indices(attrs, c, a + 1);
        if attrs[a].name != c {
            assert forall|j: int| 0 < j < kept_attr_indices(attrs, c, a).len()
                implies #[trigger] kept_attr_indices(attrs, c, a)[j] == r[j - 1] by {}
        }
    }
}

/// Result of changing the columns of table `name`.
pub open spec fn alter_spec(e: EngineV, name: Seq<char>, op: AlterOpV) -> (EngineV, Result<(), Seq<char>>) {
    if !has_table(e, name) {
        (e, Err("Table '"@ + name + "' doesn't exist"@))
    } else {
        let ti = table_idx(e, name);
        let t = e.tables[ti];
        let cols = e.data[ti];
        match op {
            AlterOpV::AddColumn(attr) => if has_attr(t, attr.name) {
                (e, Err("Column '"@ + attr.name + "' already exists in table '"@ + t.name + "'"@))
            } else {
                (
                    EngineV {
                        tables: e.tables.update(ti, TableV { name: t.name, attrs: t.attrs.push(attr) }),
                        data: e.data.update(ti, cols.push(Seq::new(row_count(cols), |i: int| ValueV::Null))),
                    },
                    Ok(()),
                )
            },
            AlterOpV::DropColumn(c) => if !has_attr(t, c) {
                (e, Err("Column '"@ + c + "' doesn't exist in table '"@ + t.name + "'"@))
            } else if t.attrs.len() == 1 {
                (e, Err("Cannot drop the only column in table '"@ + t.name + "'; drop the table instead"@))
            } else {
                let k = kept_attr_indices(t.attrs, c, 0);
                (
                    EngineV {
                        tables: e.tables.update(ti, TableV { name: t.name, attrs: k.map_values(|i: int| t.attrs[i]) }),
                        data: e.data.update(ti, k.map_values(|i: int| cols[i])),
                    },
                    Ok(()),
                )
            },
            AlterOpV::RenameColumn { from, to } => if !has_attr(t, from) {
                (e, Err("Column '"@ + from + "' doesn't exist in table '"@ + t.name + "'"@))
            } else if has_attr(t, to) {
                (e, Err("Column '"@ + to + "' already exists in table '"@ + t.name + "'"@))
            } else {
                (EngineV { tables: e.tables.update(ti, rename_attr(t, attr_idx(t, from), to)), data: e.data }, Ok(()))
            },
            AlterOpV::ModifyColumnType { name: c, new_type } => if !has_attr(t, c) {
                (e, Err("Column '"@ + c + "' doesn't exist in table '"@ + t.name + "'"@))
            } else {
                let a = attr_idx(t, c);
                match cast_error_from(cols[a], new_type, 0) {
                    Some(m) => (e, Err(m)),
                    None => (
                        EngineV {
                            tables: e.tables.update(ti, retype_attr(t, a, new_type)),
                            data: e.data.update(ti, cols.update(a, stored_column(cast_column(cols[a], new_type), new_type))),
                        },
                        Ok(()),
                    ),
                }
            },
        }
    }
}

/// A successful conversion to `ty` gives a value that fits `ty`.
pub proof fn lemma_cast_typed(v: ValueV, ty: Type)
    ensures
        cast_spec(v, ty) matches Ok(x) ==> typed(x, ty),
{
}

proof fn lemma_cast_column_typed(col: Seq<ValueV>, ty: Type)
    requires
        cast_error_from(col, ty, 0) is None,
    ensures
        all_typed(cast_column(col, ty), ty),
{
    assert forall|i: int| 0 <= i < col.len() implies typed(#[trigger] cast_column(col, ty)[i], ty) by {
        lemma_cast_error_none(col, ty, 0, i);
    }
}

pub proof fn lemma_cast_error_none(col: Seq<ValueV>, ty: Type, j: int, i: int)
    requires
        0 <= j <= i < col.len(),
        cast_error_from(col, ty, j) is None,
    ensures
        cast_spec(col[i], ty) is Ok,
        typed(cast_value(col[i], ty), ty),
    decreases i - j,
{
    if j < i {
        lemma_cast_error_none(col, ty, j + 1, i);
    }
}

/// Replacing all columns of a table with as many columns of values that fit
/// their types keeps the engine's invariant.
pub proof fn lemma_wf_update_table(e: EngineV, ti: int, cols: Seq<Seq<ValueV>>)
    requires
        engine_wf(e),
        0 <= ti < e.tables.len(),
        cols.len() == e.tables[ti].attrs.len(),
        forall|a: int| 0 <= a < cols.len() ==> all_typed(#[trigger] cols[a], e.tables[ti].attrs[a].data_type),
    ensures
        engine_wf(EngineV { tables: e.tables, data: e.data.update(ti, cols) }),
{
    let e2 = EngineV { tables: e.tables, data: e.data.update(ti, cols) };
    assert forall|t: int, b: int| 0 <= t < e2.tables.len() && 0 <= b < e2.tables[t].attrs.len()
        implies all_typed(#[trigger] e2.data[t][b], e2.tables[t].attrs[b].data_type) by {
        if t != ti {
            assert(e2.data[t] == e.data[t]);
        }
    }
    assert forall|t: int| 0 <= t < e2.tables.len() implies #[trigger] e2.data[t].len() == e2.tables[t].attrs.len() by {
        if t != ti {
            assert(e2.data[t] == e.data[t]);
        }
    }
}

proof fn lemma_kept_typed(t: TableV, cols: Seq<Seq<ValueV>>, cs: Seq<ConditionV>, a: int, n: nat)
    requires
        0 <= a < t.attrs.len(),
        a < cols.len(),
        n <= cols[a].len(),
        all_typed(cols[a], t.attrs[a].data_type),
    ensures
        all_typed(kept_column(t, cols, cs, a, n), t.attrs[a].data_type),
    decreases n,
{
    if n > 0 {
        lemma_kept_typed(t, cols, cs, a, (n - 1) as nat);
        lemma_stored_typed(cols[a][n - 1], t.attrs[a].data_type);
    }
}

/// Replacing one column of a table with values that fit its type keeps the
/// engine's invariant.
pub proof fn lemma_wf_update_column(e: EngineV, ti: int, a: int, col: Seq<ValueV>)
    requires
        engine_wf(e),
        0 <= ti < e.tables.len(),
        0 <= a < e.tables[ti].attrs.len(),
        all_typed(col, e.tables[ti].attrs[a].data_type),
    ensures
        engine_wf(EngineV { tables: e.tables, data: e.data.update(ti, e.data[ti].update(a, col)) }),
{
    let e2 = EngineV { tables: e.tables, data: e.data.update(ti, e.data[ti].update(a, col)) };
    assert forall|t: int, b: int| 0 <= t < e2.tables.len() && 0 <= b < e2.tables[t].attrs.len()
        implies all_typed(#[trigger] e2.data[t][b], e2.tables[t].attrs[b].data_type) by {
        if t == ti && b == a {
        } else {
            assert(e2.data[t][b] == e.data[t][b]);
        }
    }
    assert forall|t: int| 0 <= t < e2.tables.len() implies #[trigger] e2.data[t].len() == e2.tables[t].attrs.len() by {
        if t != ti {
            assert(e2.data[t] == e.data[t]);
        }
    }
}

/// A copy of the columns of a table.
pub fn clone_columns(cols: &Vec<Vec<Value>>) -> (r: Vec<Vec<Value>>)
    ensures
        columns_view(r@) == columns_view(cols@),
{
    let mut out: Vec<Vec<Value>> = Vec::new();
    let mut a: usize = 0;
    while a < cols.len()
        invariant
            a <= cols@.len(),
            columns_view(out@) =~= columns_view(cols@).take(a as int),
        decreases cols@.len() - a,
    {
        let mut col: Vec<Value> = Vec::new();
        let mut i: usize = 0;
        while i < cols[a].len()
            invariant
                a < cols@.len(),
                i <= cols@[a as int]@.len(),
                values_view(col@) =~= values_view(cols@[a as int]@).take(i as int),
            decreases cols@[a as int]@.len() - i,
        {
            let ghost p = col@;
            let v = cols[a][i].clone();
            col.push(v);
            assert(values_view(col@) =~= values_view(p).push(cols@[a as int]@[i as int]@));
            i = i + 1;
        }
        assert(values_view(cols@[a as int]@).take(i as int) =~= values_view(cols@[a as int]@));
        let ghost prev = out@;
        out.push(col);
        assert(columns_view(out@) =~= columns_view(prev).push(values_view(col@)));
        a = a + 1;
    }
    assert(columns_view(cols@).take(a as int) =~= columns_view(cols@));
    out
}

/// Whether every value of a column fits type `ty`.
pub fn column_typed(col: &Vec<Value>, ty: Type) -> (r: bool)
    ensures
        r == all_typed(values_view(col@), ty),
{
    let mut i: usize = 0;
    while i < col.len()
        invariant
            i <= col@.len(),
            forall|k: int| 0 <= k < i ==> typed(#[trigger] values_view(col@)[k], ty),
        decreases col@.len() - i,
    {
        if !is_typed(&col[i], ty) {
            assert(!typed(values_view(col@)[i as int], ty));
            return false;
        }
        i = i + 1;
    }
    true
}

/// Whether no table other than the one at index `t` has its name.
pub fn name_unique_at(tables: &Vec<Table>, t: usize) -> (r: bool)
    requires
        t < tables@.len(),
    ensures
        r == forall|j: int| 0 <= j < tables@.len() && j != t ==> #[trigger] tables@[j]@.name != tables@[t as int]@.name,
{
    let mut j: usize = 0;
    while j < tables.len()
        invariant
            t < tables@.len(),
            j <= tables@.len(),
            forall|y: int| 0 <= y < j && y != t ==> #[trigger] tables@[y]@.name != tables@[t as int]@.name,
        decreases tables@.len() - j,
    {
        if j != t && str_eq(tables[j].name.as_str(), tables[t].name.as_str()) {
            assert(tables@[j as int]@.name == tables@[t as int]@.name);
            return false;
        }
        j = j + 1;
    }
    true
}

/// Whether `v` holds `s`.
pub fn contains_str(v: &Vec<&str>, s: &str) -> (r: bool)
    ensures
        r == strs_view(v@).contains(s@),
{
    let mut i: usize = 0;
    while i < v.len()
        invariant
            i <= v@.len(),
            forall|j: int| 0 <= j < i ==> #[trigger] v@[j]@ != s@,
        decreases v@.len() - i,
    {
        if str_eq(v[i], s) {
            assert(strs_view(v@)[i as int] == s@);
            return true;
        }
        i = i + 1;
    }
    assert forall|j: int| 0 <= j < strs_view(v@).len() implies #[trigger] strs_view(v@)[j] != s@ by {
        assert(strs_view(v@)[j] == v@[j]@);
    }
    false
}

/// Compares two values as a condition does.
pub fn compare_values(a: &Value, b: &Value, op: Operator) -> (r: bool)
    ensures
        r == compare(a@, b@, op),
{
    match (a, b) {
        (Value::Int(x), Value::Int(y)) => match op {
            Operator::Eq => *x == *y,
            Operator::Ne => *x != *y,
            Operator::Gt => *x > *y,
            Operator::Ge => *x >= *y,
            Operator::Lt => *x < *y,
            Operator::Le => *x <= *y,
        },
        (Value::VarChar(x), Value::VarChar(y)) => match op {
            Operator::Eq => *x == *y,
            Operator::Ne => !(*x == *y),
            _ => false,
        },
        _ => false,
    }
}

/// Index of the first field named `name`.
pub(crate) fn find_field(d: &Vec<Data>, name: &str) -> (r: Option<usize>)
    ensures
        match r {
            Some(j) => j < d@.len() && find_data(data_view(d@), name@) == Some(d@[j as int]@),
            None => find_data(data_view(d@), name@) is None,
        },
{
    let mut j: usize = 0;
    assert(data_view(d@).skip(0) =~= data_view(d@));
    while j < d.len()
        invariant
            j <= d@.len(),
            find_data(data_view(d@), name@) == find_data(data_view(d@).skip(j as int), name@),
        decreases d@.len() - j,
    {
        assert(data_view(d@).skip(j as int)[0] == d@[j as int]@);
        if str_eq(d[j].name.as_str(), name) {
            return Some(j);
        }
        assert(data_view(d@).skip(j as int).drop_first() =~= data_view(d@).skip(j + 1));
        j = j + 1;
    }
    None
}

} // verus!

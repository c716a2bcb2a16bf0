//! Properties of the engine that relate several operations.

use vstd::prelude::*;
use crate::codec::stored;
use crate::engine::{
    alter_spec, all_match, attr_idx, compare, create_spec, delete_spec, distinct_attr_names, drop_spec, engine_wf,
    find_data, has_attr, has_table, insert_columns, insert_spec, kept_column, matched_rows, rename_attr, AlterOpV, row_matches, row_count, row_entity, select_spec, selected_rows, table_idx, validation_error,
    untyped_field_from, update_spec, updated_upto, stored_column, bad_column_from, apply_updates, EngineV,
};
use crate::engine::{cast_column, cast_error_from, project};
use crate::types::{cast_spec, AttrV, ConditionV, DataV, EntityV, Operator, TableV, Type, ValueV};

verus! {

broadcast use crate::types::lemma_attr_idx_first;

/// Whether no two fields of a row share a name.
pub open spec fn distinct_field_names(d: Seq<DataV>) -> bool {
    forall|i: int, j: int| 0 <= i < d.len() && 0 <= j < d.len() && i != j ==> #[trigger] d[i].name != #[trigger] d[j].name
}

/// Whether all columns of a table have the same number of values.
pub open spec fn rectangular(cols: Seq<Seq<ValueV>>) -> bool {
    forall|a: int| 0 <= a < cols.len() ==> #[trigger] cols[a].len() == row_count(cols)
}

/// Comparing with NULL, on either side, is never true.
pub proof fn law_null_never_compares(a: ValueV, b: ValueV, op: Operator)
    requires
        a is Null || b is Null,
    ensures
        !compare(a, b, op),
{
}

/// A row whose field is NULL satisfies no comparison on that field, and no row
/// satisfies a comparison with NULL.
pub proof fn law_null_matches_nothing(e: EntityV, attr: Seq<char>, v: ValueV, op: Operator)
    requires
        v is Null || (find_data(e.data, attr) matches Some(d) && d.value is Null),
    ensures
        !row_matches(e, ConditionV::Compare { attr, value: v, op }),
{
}

proof fn lemma_find_data_push(d: Seq<DataV>, x: DataV, name: Seq<char>)
    ensures
        find_data(d.push(x), name) == (if find_data(d, name) is Some {
            find_data(d, name)
        } else if x.name == name {
            Some(x)
        } else {
            None::<DataV>
        }),
    decreases d.len(),
{
    if d.len() > 0 {
        assert(d.push(x).drop_first() =~= d.drop_first().push(x));
        assert(d.push(x)[0] == d[0]);
        lemma_find_data_push(d.drop_first(), x, name);
    } else {
        assert(d.push(x).drop_first() =~= Seq::<DataV>::empty());
        assert(d.push(x)[0] == x);
        assert(find_data(Seq::<DataV>::empty(), name) is None);
    }
}

proof fn lemma_find_data_none(d: Seq<DataV>, name: Seq<char>)
    ensures
        find_data(d, name) is None <==> forall|j: int| 0 <= j < d.len() ==> #[trigger] d[j].name != name,
    decreases d.len(),
{
    if d.len() > 0 {
        lemma_find_data_none(d.drop_first(), name);
        assert forall|j: int| 0 < j < d.len() implies #[trigger] d[j].name == d.drop_first()[j - 1].name by {}
        if find_data(d, name) is None {
            assert forall|j: int| 0 <= j < d.len() implies #[trigger] d[j].name != name by {
                if j > 0 {
                    assert(d[j].name == d.drop_first()[j - 1].name);
                }
            }
        } else if d[0].name != name {
            let k = choose|k: int| 0 <= k < d.drop_first().len() && #[trigger] d.drop_first()[k].name == name;
            assert(d[k + 1].name == name);
        }
    }
}

/// Inserting a row whose fields have distinct names appends to each column
/// the stored value of the field of its name, if any, and leaves the other
/// columns unchanged.
proof fn lemma_insert_columns_distinct(t: TableV, cols: Seq<Seq<ValueV>>, d: Seq<DataV>)
    requires
        cols.len() == t.attrs.len(),
        distinct_field_names(d),
    ensures
        insert_columns(t, cols, d).len() == cols.len(),
        forall|a: int| 0 <= a < cols.len() ==> #[trigger] insert_columns(t, cols, d)[a] == (match find_data(d, t.attrs[a].name) {
            Some(x) => cols[a].push(stored(x.value, t.attrs[a].data_type)),
            None => cols[a],
        }),
    decreases d.len(),
{
    if d.len() > 0 {
        let p = d.drop_last();
        let x = d.last();
        assert forall|i: int, j: int| 0 <= i < p.len() && 0 <= j < p.len() && i != j implies #[trigger] p[i].name != #[trigger] p[j].name by {
            assert(p[i] == d[i] && p[j] == d[j]);
        }
        lemma_insert_columns_distinct(t, cols, p);
        assert(d =~= p.push(x));
        assert forall|a: int| 0 <= a < cols.len() implies #[trigger] insert_columns(t, cols, d)[a] == (match find_data(d, t.attrs[a].name) {
            Some(y) => cols[a].push(stored(y.value, t.attrs[a].data_type)),
            None => cols[a],
        }) by {
            lemma_find_data_push(p, x, t.attrs[a].name);
            if t.attrs[a].name == x.name {
                lemma_find_data_none(p, x.name);
                assert forall|j: int| 0 <= j < p.len() implies #[trigger] p[j].name != x.name by {
                    assert(p[j] == d[j]);
                    assert(d[j].name != d[d.len() - 1].name);
                }
            }
        }
    }
}

proof fn lemma_selected_rows_prefix(
    t: TableV,
    c1: Seq<Seq<ValueV>>,
    c2: Seq<Seq<ValueV>>,
    cs: Seq<ConditionV>,
    attrs: Seq<Seq<char>>,
    all: bool,
    n: nat,
)
    requires
        forall|a: int, r: int| 0 <= a < t.attrs.len() && 0 <= r < n ==> #[trigger] c1[a][r] == c2[a][r],
    ensures
        selected_rows(t, c1, cs, attrs, all, n) == selected_rows(t, c2, cs, attrs, all, n),
    decreases n,
{
    if n > 0 {
        lemma_selected_rows_prefix(t, c1, c2, cs, attrs, all, (n - 1) as nat);
        assert(row_entity(t, c1, n - 1).data =~= row_entity(t, c2, n - 1).data);
    }
}

/// The rows of a successful selection.
pub open spec fn rows_of(r: Result<Seq<EntityV>, Seq<char>>) -> Seq<EntityV> {
    match r {
        Ok(rows) => rows,
        Err(_) => Seq::empty(),
    }
}

/// The row that a successful insert adds: one field per column, in column
/// order, holding the value stored for the field of that name.
pub open spec fn inserted_row(t: TableV, d: Seq<DataV>) -> EntityV {
    EntityV {
        of: t.name,
        data: Seq::new(
            t.attrs.len(),
            |a: int| DataV { name: t.attrs[a].name, value: stored(find_data(d, t.attrs[a].name).unwrap().value, t.attrs[a].data_type) },
        ),
    }
}

/// What a read gives back of a write: after a successful insert into a table
/// whose columns have equal lengths, selecting every row without conditions
/// gives the rows selected before followed by the inserted row.
pub proof fn law_select_after_insert(e: EngineV, row: EntityV)
    requires
        engine_wf(e),
        has_table(e, row.of),
        e.tables[table_idx(e, row.of)].attrs.len() > 0,
        rectangular(e.data[table_idx(e, row.of)]),
        distinct_field_names(row.data),
        insert_spec(e, row).1 is Ok,
    ensures
        select_spec(e, row.of, seq!["*"@], Seq::empty()) is Ok,
        select_spec(insert_spec(e, row).0, row.of, seq!["*"@], Seq::empty()) == Ok::<Seq<EntityV>, Seq<char>>(
            rows_of(select_spec(e, row.of, seq!["*"@], Seq::empty())).push(inserted_row(e.tables[table_idx(e, row.of)], row.data)),
        ),
{
    let ti = table_idx(e, row.of);
    let t = e.tables[ti];
    let cols = e.data[ti];
    let d = row.data;
    let e2 = insert_spec(e, row).0;
    assert(validation_error(t, d) is None);
    assert(untyped_field_from(t, d, 0) is None);
    assert(e2.data[ti] == insert_columns(t, cols, d));
    lemma_insert_columns_distinct(t, cols, d);
    let nc = insert_columns(t, cols, d);
    let n = row_count(cols);
    assert forall|a: int| 0 <= a < t.attrs.len() implies find_data(d, t.attrs[a].name) is Some by {
        lemma_attr_error_none(t, d, 0, a);
    }
    assert(has_table(e2, row.of) && table_idx(e2, row.of) == ti) by {
        assert(e2.tables == e.tables);
    }
    assert(row_count(nc) == n + 1) by {
        assert(nc[0] == cols[0].push(stored(find_data(d, t.attrs[0].name).unwrap().value, t.attrs[0].data_type)));
    }
    assert(seq!["*"@].contains("*"@)) by {
        assert(seq!["*"@][0] == "*"@);
    }
    lemma_selected_rows_prefix(t, cols, nc, Seq::empty(), seq!["*"@], true, n);
    assert(row_entity(t, nc, n as int).data =~= inserted_row(t, d).data);
    assert(all_match(row_entity(t, nc, n as int), Seq::empty()));
}

/// Creating a table succeeds exactly when no table has its name, and creating
/// the same table again then fails.
pub proof fn law_create_twice(e: EngineV, t: TableV)
    ensures
        create_spec(e, t).1 is Ok <==> !has_table(e, t.name),
        create_spec(create_spec(e, t).0, t).1 is Err,
{
    let e2 = create_spec(e, t).0;
    if !has_table(e, t.name) {
        assert(e2.tables == e.tables.push(t));
        assert(e2.tables[e.tables.len() as int].name == t.name);
    }
}

/// After a table is dropped no table of that name remains, so selecting from
/// it fails.
pub proof fn law_drop_removes(e: EngineV, name: Seq<char>, attrs: Seq<Seq<char>>, cs: Seq<ConditionV>)
    requires
        engine_wf(e),
    ensures
        drop_spec(e, name).1 is Ok <==> has_table(e, name),
        !has_table(drop_spec(e, name).0, name),
        select_spec(drop_spec(e, name).0, name, attrs, cs) is Err,
{
    if has_table(e, name) {
        let ti = table_idx(e, name);
        let e2 = drop_spec(e, name).0;
        if has_table(e2, name) {
            let j = choose|j: int| 0 <= j < e2.tables.len() && #[trigger] e2.tables[j].name == name;
            let oj = if j < ti { j } else { j + 1 };
            assert(e2.tables[j] == e.tables[oj]);
            assert(e.tables[oj].name != e.tables[ti].name);
        }
    }
}

proof fn lemma_delete_counts(t: TableV, cols: Seq<Seq<ValueV>>, cs: Seq<ConditionV>, a: int, n: nat)
    ensures
        kept_column(t, cols, cs, a, n).len() + matched_rows(t, cols, cs, n) == n,
    decreases n,
{
    if n > 0 {
        lemma_delete_counts(t, cols, cs, a, (n - 1) as nat);
    }
}

/// Deleting rows leaves every column of the table with one value per row not
/// deleted: the rows deleted and the rows kept add up to the rows there were.
pub proof fn law_delete_partitions_rows(e: EngineV, name: Seq<char>, cs: Seq<ConditionV>)
    requires
        engine_wf(e),
        has_table(e, name),
        e.tables[table_idx(e, name)].attrs.len() > 0,
    ensures
        delete_spec(e, name, cs).1 matches Ok(n) && ({
            let ti = table_idx(e, name);
            let after = delete_spec(e, name, cs).0.data[ti];
            &&& rectangular(after)
            &&& row_count(after) + n == row_count(e.data[ti])
        }),
{
    let ti = table_idx(e, name);
    let t = e.tables[ti];
    let cols = e.data[ti];
    let rc = row_count(cols);
    let after = delete_spec(e, name, cs).0.data[ti];
    assert forall|a: int| 0 <= a < after.len() implies #[trigger] after[a].len() + matched_rows(t, cols, cs, rc) == rc by {
        lemma_delete_counts(t, cols, cs, a, rc);
    }
    lemma_delete_counts(t, cols, cs, 0, rc);
}

/// Whether every value of the table is as its column file holds it, as every
/// value that the engine writes is.
pub open spec fn at_rest(t: TableV, cols: Seq<Seq<ValueV>>) -> bool {
    forall|a: int, r: int| 0 <= a < cols.len() && 0 <= r < cols[a].len()
        ==> stored(#[trigger] cols[a][r], t.attrs[a].data_type) == cols[a][r]
}

/// Indexes of the rows among the first `n` that do not satisfy every condition.
spec fn kept_rows(t: TableV, cols: Seq<Seq<ValueV>>, cs: Seq<ConditionV>, n: nat) -> Seq<int>
    decreases n,
{
    if n == 0 {
        Seq::empty()
    } else {
        let p = kept_rows(t, cols, cs, (n - 1) as nat);
        if all_match(row_entity(t, cols, n - 1), cs) { p } else { p.push(n - 1) }
    }
}

proof fn lemma_kept_rows(t: TableV, cols: Seq<Seq<ValueV>>, cs: Seq<ConditionV>, n: nat)
    ensures
        forall|j: int| 0 <= j < kept_rows(t, cols, cs, n).len() ==> 0 <= #[trigger] kept_rows(t, cols, cs, n)[j] < n
            && !all_match(row_entity(t, cols, kept_rows(t, cols, cs, n)[j]), cs),
        forall|a: int| #![trigger kept_column(t, cols, cs, a, n)] kept_column(t, cols, cs, a, n)
            == kept_rows(t, cols, cs, n).map_values(|r: int| stored(cols[a][r], t.attrs[a].data_type)),
    decreases n,
{
    if n > 0 {
        lemma_kept_rows(t, cols, cs, (n - 1) as nat);
        let p = kept_rows(t, cols, cs, (n - 1) as nat);
        assert forall|a: int| #![trigger kept_column(t, cols, cs, a, n)] kept_column(t, cols, cs, a, n)
            == kept_rows(t, cols, cs, n).map_values(|r: int| stored(cols[a][r], t.attrs[a].data_type)) by {
            assert(kept_column(t, cols, cs, a, (n - 1) as nat) == p.map_values(|r: int| stored(cols[a][r], t.attrs[a].data_type)));
            if !all_match(row_entity(t, cols, n - 1), cs) {
                assert(p.push(n - 1).map_values(|r: int| stored(cols[a][r], t.attrs[a].data_type))
                    =~= p.map_values(|r: int| stored(cols[a][r], t.attrs[a].data_type)).push(stored(cols[a][n - 1], t.attrs[a].data_type)));
            }
        }
    }
}

proof fn lemma_nothing_selected(t: TableV, cols: Seq<Seq<ValueV>>, cs: Seq<ConditionV>, attrs: Seq<Seq<char>>, all: bool, n: nat)
    requires
        forall|r: int| 0 <= r < n ==> !all_match(#[trigger] row_entity(t, cols, r), cs),
    ensures
        selected_rows(t, cols, cs, attrs, all, n) == Seq::<EntityV>::empty(),
    decreases n,
{
    if n > 0 {
        lemma_nothing_selected(t, cols, cs, attrs, all, (n - 1) as nat);
        assert(!all_match(row_entity(t, cols, n - 1), cs));
    }
}

/// After the rows that satisfy some conditions are deleted, selecting with the
/// same conditions gives no row, for a table whose columns have equal lengths
/// and whose values are as the column files hold them.
pub proof fn law_select_after_delete(e: EngineV, name: Seq<char>, attrs: Seq<Seq<char>>, cs: Seq<ConditionV>)
    requires
        engine_wf(e),
        has_table(e, name),
        rectangular(e.data[table_idx(e, name)]),
        at_rest(e.tables[table_idx(e, name)], e.data[table_idx(e, name)]),
    ensures
        select_spec(delete_spec(e, name, cs).0, name, seq!["*"@], cs) is Ok,
        select_spec(delete_spec(e, name, cs).0, name, attrs, cs) is Ok
            ==> select_spec(delete_spec(e, name, cs).0, name, attrs, cs) == Ok::<Seq<EntityV>, Seq<char>>(Seq::empty()),
{
    let ti = table_idx(e, name);
    let t = e.tables[ti];
    let cols = e.data[ti];
    let e2 = delete_spec(e, name, cs).0;
    assert(e2.tables == e.tables);
    assert(has_table(e2, name));
    assert(table_idx(e2, name) == ti);
    assert(seq!["*"@].contains("*"@)) by {
        assert(seq!["*"@][0] == "*"@);
    }
    if t.attrs.len() > 0 {
        let rc = row_count(cols);
        let nc = e2.data[ti];
        let kr = kept_rows(t, cols, cs, rc);
        lemma_kept_rows(t, cols, cs, rc);
        assert(nc.len() == t.attrs.len());
        assert(nc[0] == kept_column(t, cols, cs, 0, rc));
        assert(row_count(nc) == kr.len());
        assert forall|j: int| 0 <= j < row_count(nc) implies !all_match(#[trigger] row_entity(t, nc, j), cs) by {
            let r = kr[j];
            assert(0 <= r < rc);
            assert(row_entity(t, nc, j).data =~= row_entity(t, cols, r).data) by {
                assert forall|a: int| 0 <= a < t.attrs.len() implies #[trigger] nc[a][j] == cols[a][r] by {
                    assert(nc[a] == kept_column(t, cols, cs, a, rc));
                    assert(cols[a].len() == rc);
                }
            }
            assert(row_entity(t, nc, j) == row_entity(t, cols, r));
        }
        lemma_nothing_selected(t, nc, cs, attrs, attrs.contains("*"@), row_count(nc));
        lemma_nothing_selected(t, nc, cs, seq!["*"@], true, row_count(nc));
    }
}

/// A successful update keeps the number of rows; each row that satisfies every
/// condition holds, in each column, the stored value of the last update naming
/// that column (its old value when none does), and every other row is left as
/// it was, for a table whose columns have equal lengths and whose values are as
/// the column files hold them.
pub proof fn law_update_rows(e: EngineV, name: Seq<char>, us: Seq<DataV>, cs: Seq<ConditionV>)
    requires
        engine_wf(e),
        has_table(e, name),
        rectangular(e.data[table_idx(e, name)]),
        at_rest(e.tables[table_idx(e, name)], e.data[table_idx(e, name)]),
        update_spec(e, name, us, cs).1 is Ok,
    ensures
        ({
            let ti = table_idx(e, name);
            let t = e.tables[ti];
            let before = e.data[ti];
            let after = update_spec(e, name, us, cs).0.data[ti];
            &&& after.len() == before.len()
            &&& rectangular(after)
            &&& row_count(after) == row_count(before)
            &&& forall|r: int| 0 <= r < row_count(before) && all_match(row_entity(t, before, r), cs)
                ==> forall|a: int| 0 <= a < before.len()
                ==> #[trigger] after[a][r] == stored(apply_updates(t, us, a, before[a][r]), t.attrs[a].data_type)
            &&& forall|r: int| 0 <= r < row_count(before) && !all_match(row_entity(t, before, r), cs)
                ==> #[trigger] row_entity(t, after, r) == row_entity(t, before, r)
        }),
{
    let ti = table_idx(e, name);
    let t = e.tables[ti];
    let cols = e.data[ti];
    let after = update_spec(e, name, us, cs).0.data[ti];
    let rc = row_count(cols);
    if t.attrs.len() > 0 {
        let newc = Seq::new(cols.len(), |a: int| updated_upto(t, cols, cs, us, a, rc as int));
        assert(bad_column_from(t, newc, 0) is None);
        assert forall|a: int| 0 <= a < after.len() implies #[trigger] after[a].len() == row_count(after) by {
            assert(after[a] == stored_column(newc[a], t.attrs[a].data_type));
            assert(after[0] == stored_column(newc[0], t.attrs[0].data_type));
            assert(cols[a].len() == rc);
        }
        assert forall|r: int| 0 <= r < rc && !all_match(row_entity(t, cols, r), cs)
            implies #[trigger] row_entity(t, after, r) == row_entity(t, cols, r) by {
            assert(row_entity(t, after, r).data =~= row_entity(t, cols, r).data) by {
                assert forall|a: int| 0 <= a < t.attrs.len() implies #[trigger] after[a][r] == cols[a][r] by {
                    assert(after[a] == stored_column(newc[a], t.attrs[a].data_type));
                    assert(cols[a].len() == rc);
                }
            }
        }
        assert forall|r: int| 0 <= r < rc && all_match(row_entity(t, cols, r), cs)
            implies forall|a: int| 0 <= a < cols.len()
            ==> #[trigger] after[a][r] == stored(apply_updates(t, us, a, cols[a][r]), t.attrs[a].data_type) by {
            assert forall|a: int| 0 <= a < cols.len()
                implies #[trigger] after[a][r] == stored(apply_updates(t, us, a, cols[a][r]), t.attrs[a].data_type) by {
                assert(after[a] == stored_column(newc[a], t.attrs[a].data_type));
                assert(cols[a].len() == rc);
            }
        }
    }
}

/// Adding a column gives it a NULL in every existing row and leaves the
/// other columns unchanged.
pub proof fn law_add_column_fills_null(e: EngineV, name: Seq<char>, attr: AttrV)
    requires
        engine_wf(e),
        has_table(e, name),
        !has_attr(e.tables[table_idx(e, name)], attr.name),
    ensures
        alter_spec(e, name, AlterOpV::AddColumn(attr)).1 is Ok,
        ({
            let ti = table_idx(e, name);
            let after = alter_spec(e, name, AlterOpV::AddColumn(attr)).0.data[ti];
            &&& after.len() == e.data[ti].len() + 1
            &&& after.last().len() == row_count(e.data[ti])
            &&& forall|r: int| 0 <= r < after.last().len() ==> #[trigger] after.last()[r] == ValueV::Null
            &&& forall|a: int| 0 <= a < e.data[ti].len() ==> #[trigger] after[a] == e.data[ti][a]
        }),
{
}

/// Renaming a column to a new name makes the new name a column of the table,
/// and the old one not where only one column had it.
pub proof fn law_rename_column(e: EngineV, name: Seq<char>, from: Seq<char>, to: Seq<char>)
    requires
        engine_wf(e),
        has_table(e, name),
        has_attr(e.tables[table_idx(e, name)], from),
        !has_attr(e.tables[table_idx(e, name)], to),
        forall|b: int| 0 <= b < e.tables[table_idx(e, name)].attrs.len()
            && #[trigger] e.tables[table_idx(e, name)].attrs[b].name == from
            ==> b == attr_idx(e.tables[table_idx(e, name)], from),
    ensures
        alter_spec(e, name, AlterOpV::RenameColumn { from, to }).1 is Ok,
        has_attr(alter_spec(e, name, AlterOpV::RenameColumn { from, to }).0.tables[table_idx(e, name)], to),
        !has_attr(alter_spec(e, name, AlterOpV::RenameColumn { from, to }).0.tables[table_idx(e, name)], from),
{
    let ti = table_idx(e, name);
    let t = e.tables[ti];
    let a = attr_idx(t, from);
    let nt = rename_attr(t, a, to);
    assert(nt.attrs[a].name == to);
    if has_attr(nt, from) {
        let b = choose|b: int| 0 <= b < nt.attrs.len() && #[trigger] nt.attrs[b].name == from;
        assert(b != a);
        assert(t.attrs[b].name == from);
    }
}

proof fn lemma_attr_error_none(t: TableV, d: Seq<DataV>, i: int, a: int)
    requires
        crate::engine::attr_error_from(t.attrs, d, i) is None,
        0 <= i <= a < t.attrs.len(),
    ensures
        find_data(d, t.attrs[a].name) is Some,
    decreases a - i,
{
    if i < a {
        lemma_attr_error_none(t, d, i + 1, a);
    }
}

/// Comparing two non-NULL values of the same kind: `=` holds exactly when they
/// are equal and `<>` exactly when they differ; integers are ordered as
/// numbers; strings are only compared for (in)equality.
pub proof fn law_compare_meaning(a: ValueV, b: ValueV)
    ensures
        (a is Int && b is Int) || (a is VarChar && b is VarChar) ==> {
            &&& compare(a, b, Operator::Eq) == (a == b)
            &&& compare(a, b, Operator::Ne) == (a != b)
            &&& compare(a, b, Operator::Ne) == !compare(a, b, Operator::Eq)
        },
        match (a, b) {
            (ValueV::Int(x), ValueV::Int(y)) => {
                &&& compare(a, b, Operator::Gt) == (x > y)
                &&& compare(a, b, Operator::Ge) == (x >= y)
                &&& compare(a, b, Operator::Lt) == (x < y)
                &&& compare(a, b, Operator::Le) == (x <= y)
            },
            _ => true,
        },
        a is VarChar && b is VarChar ==> !compare(a, b, Operator::Gt) && !compare(a, b, Operator::Ge)
            && !compare(a, b, Operator::Lt) && !compare(a, b, Operator::Le),
{
}

/// NULL converts to NULL for every column type.
pub proof fn law_cast_keeps_null(ty: Type)
    ensures
        cast_spec(ValueV::Null, ty) == Ok::<ValueV, Seq<char>>(ValueV::Null),
{
}

/// Changing the type of a column keeps its NULL cells NULL and its other
/// cells non-NULL, and keeps the number of values.
pub proof fn law_modify_type_keeps_nulls(e: EngineV, name: Seq<char>, c: Seq<char>, ty: Type)
    requires
        engine_wf(e),
        has_table(e, name),
        alter_spec(e, name, AlterOpV::ModifyColumnType { name: c, new_type: ty }).1 is Ok,
    ensures
        ({
            let ti = table_idx(e, name);
            let a = attr_idx(e.tables[ti], c);
            let before = e.data[ti][a];
            let after = alter_spec(e, name, AlterOpV::ModifyColumnType { name: c, new_type: ty }).0.data[ti][a];
            &&& after.len() == before.len()
            &&& forall|r: int| 0 <= r < before.len() ==> ((#[trigger] after[r]) is Null <==> before[r] is Null)
        }),
{
    let ti = table_idx(e, name);
    let t = e.tables[ti];
    let a = attr_idx(t, c);
    let before = e.data[ti][a];
    let after = alter_spec(e, name, AlterOpV::ModifyColumnType { name: c, new_type: ty }).0.data[ti][a];
    assert(has_attr(t, c));
    assert(crate::types::first_attr(t, c, a));
    assert(after == stored_column(cast_column(before, ty), ty));
    assert forall|r: int| 0 <= r < before.len() implies ((#[trigger] after[r]) is Null <==> before[r] is Null) by {
        crate::engine::lemma_cast_error_none(before, ty, 0, r);
        assert(after[r] == stored(cast_column(before, ty)[r], ty));
    }
}

/// A projection keeps exactly the fields whose names are listed, in their
/// order in the row.
pub proof fn law_project_keeps_listed(d: Seq<DataV>, attrs: Seq<Seq<char>>)
    ensures
        project(d, attrs) == d.filter(|x: DataV| attrs.contains(x.name)),
        forall|i: int| 0 <= i < project(d, attrs).len() ==> attrs.contains(#[trigger] project(d, attrs)[i].name),
    decreases d.len(),
{
    reveal_with_fuel(Seq::filter, 2);
    if d.len() > 0 {
        law_project_keeps_listed(d.drop_last(), attrs);
    }
    let f = d.filter(|x: DataV| attrs.contains(x.name));
    assert forall|i: int| 0 <= i < f.len() implies attrs.contains(#[trigger] f[i].name) by {
        broadcast use vstd::seq_lib::group_filter_ensures;
    }
}

/// Selecting named columns gives rows whose fields are exactly the row's
/// fields with those names, in the row's order: no other field is kept.
pub proof fn law_select_projects(e: EngineV, name: Seq<char>, attrs: Seq<Seq<char>>, cs: Seq<ConditionV>)
    requires
        !attrs.contains("*"@),
    ensures
        select_spec(e, name, attrs, cs) matches Ok(rows) ==> forall|k: int, i: int|
            0 <= k < rows.len() && 0 <= i < rows[k].data.len() ==> attrs.contains(#[trigger] rows[k].data[i].name),
{
    if select_spec(e, name, attrs, cs) is Ok && has_table(e, name) {
        let ti = table_idx(e, name);
        let t = e.tables[ti];
        if t.attrs.len() > 0 {
            lemma_selected_rows_listed(t, e.data[ti], cs, attrs, row_count(e.data[ti]));
        }
    }
}

proof fn lemma_selected_rows_listed(t: TableV, cols: Seq<Seq<ValueV>>, cs: Seq<ConditionV>, attrs: Seq<Seq<char>>, n: nat)
    ensures
        ({
            let rows = selected_rows(t, cols, cs, attrs, false, n);
            forall|k: int, i: int| 0 <= k < rows.len() && 0 <= i < rows[k].data.len() ==> attrs.contains(#[trigger] rows[k].data[i].name)
        }),
    decreases n,
{
    if n > 0 {
        lemma_selected_rows_listed(t, cols, cs, attrs, (n - 1) as nat);
        law_project_keeps_listed(row_entity(t, cols, n - 1).data, attrs);
    }
}

} // verus!

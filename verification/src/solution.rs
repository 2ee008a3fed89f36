//! Query evaluation: filtering, grouping, aggregating.

use vstd::prelude::*;
use crate::dataset::{ColumnType, Dataset, SpecDataset, Row, SpecValue, Value, column_position, copy_columns, has_column};
use crate::query::{Aggregation, Condition, Query, condition_evaluates, condition_holds, result_column_name};

verus! {

/// Whether `row` satisfies `condition`, looking up column names in `dataset`.
pub fn row_matches(row: &Row, dataset: &Dataset, condition: &Condition) -> (r: bool)
    requires
        condition_evaluates(row@, dataset@.columns, *condition),
    ensures
        r == condition_holds(row@, dataset@.columns, *condition),
    decreases *condition,
{
    match condition {
        Condition::Equal(col_name, expected_value) => {
            let idx = dataset.column_index(col_name);
            row.get_value(idx) == expected_value
        },
        Condition::Not(inner) => !row_matches(row, dataset, inner),
        Condition::And(left, right) => {
            row_matches(row, dataset, left) && row_matches(row, dataset, right)
        },
        Condition::Or(left, right) => {
            row_matches(row, dataset, left) || row_matches(row, dataset, right)
        },
    }
}

/// Every row of `d` can be tested against `c`.
pub open spec fn filter_evaluates(d: SpecDataset, c: Condition) -> bool {
    forall|i: int| 0 <= i < d.rows.len() ==> condition_evaluates(#[trigger] d.rows[i], d.columns, c)
}

/// The rows of `d` that satisfy `c`, in their order.
pub open spec fn filtered_rows(d: SpecDataset, c: Condition) -> Seq<Seq<SpecValue>> {
    d.rows.filter(|r: Seq<SpecValue>| condition_holds(r, d.columns, c))
}

/// A dataset with the columns of `dataset` and those of its rows that satisfy `filter`.
pub fn filter_dataset(dataset: &Dataset, filter: &Condition) -> (result: Dataset)
    requires
        filter_evaluates(dataset@, *filter),
    ensures
        result@.columns == dataset@.columns,
        result@.rows == filtered_rows(dataset@, *filter),
{
    let mut result = Dataset::new(copy_columns(dataset.columns()));
    let ghost d = dataset@;
    let ghost pred = |r: Seq<SpecValue>| condition_holds(r, d.columns, *filter);
    let n = dataset.len();
    let mut i: usize = 0;
    while i < n
        invariant
            n == d.rows.len(),
            d == dataset@,
            pred == (|r: Seq<SpecValue>| condition_holds(r, d.columns, *filter)),
            filter_evaluates(d, *filter),
            i <= n,
            result@.columns == d.columns,
            result@.rows == d.rows.take(i as int).filter(pred),
        decreases n - i,
    {
        let row = dataset.row(i);
        assert(condition_evaluates(d.rows[i as int], d.columns, *filter));
        let keep = row_matches(row, dataset, filter);
        if keep {
            result.add_row(row.clone());
        }
        proof {
            let s = d.rows.take(i + 1);
            assert(s.drop_last() =~= d.rows.take(i as int));
            assert(s.last() == row@);
            reveal_with_fuel(Seq::<_>::filter, 1);
            assert(s.filter(pred) == s.drop_last().filter(pred) + (if pred(s.last()) {
                seq![s.last()]
            } else {
                Seq::<Seq<SpecValue>>::empty()
            }));
            assert(pred(row@) == keep);
        }
        i += 1;
    }
    assert(d.rows.take(n as int) =~= d.rows);
    result
}


/// The mathematical content of a list of groups.
pub open spec fn groups_view(groups: Seq<(Value, Dataset)>) -> Seq<(SpecValue, SpecDataset)> {
    groups.map_values(|g: (Value, Dataset)| (g.0@, g.1@))
}

/// The rows whose value at position `idx` is `key`, in their order.
pub open spec fn group_rows(rows: Seq<Seq<SpecValue>>, idx: int, key: SpecValue) -> Seq<Seq<SpecValue>> {
    rows.filter(has_key(idx, key))
}

/// The test that a row holds `key` at position `idx`.
pub open spec fn has_key(idx: int, key: SpecValue) -> spec_fn(Seq<SpecValue>) -> bool {
    |r: Seq<SpecValue>| r[idx] == key
}

/// Every row has a value at position `idx`.
pub open spec fn rows_reach(rows: Seq<Seq<SpecValue>>, idx: int) -> bool {
    forall|k: int| 0 <= k < rows.len() ==> idx < #[trigger] rows[k].len()
}

/// `groups` splits the rows of `d` by their value at position `idx`: one group per
/// distinct value, holding exactly the rows with that value, in their order.
pub open spec fn is_grouping(groups: Seq<(SpecValue, SpecDataset)>, d: SpecDataset, idx: int) -> bool {
    &&& forall|i: int| 0 <= i < groups.len() ==> (#[trigger] groups[i]).1.columns == d.columns
    &&& forall|i: int| 0 <= i < groups.len() ==> (#[trigger] groups[i]).1.rows == group_rows(d.rows, idx, groups[i].0)
    &&& forall|i: int| 0 <= i < groups.len() ==> (#[trigger] groups[i]).1.rows.len() > 0
    &&& forall|i: int, j: int| 0 <= i < j < groups.len() ==> (#[trigger] groups[i]).0 != (#[trigger] groups[j]).0
    &&& forall|k: int| 0 <= k < d.rows.len() ==> key_listed(groups, #[trigger] d.rows[k][idx])
}

/// Some group has the key `key`.
pub open spec fn key_listed(groups: Seq<(SpecValue, SpecDataset)>, key: SpecValue) -> bool {
    exists|i: int| 0 <= i < groups.len() && groups[i].0 == key
}

proof fn lemma_group_rows_push(rows: Seq<Seq<SpecValue>>, row: Seq<SpecValue>, idx: int, key: SpecValue)
    ensures
        group_rows(rows.push(row), idx, key) == if row[idx] == key {
            group_rows(rows, idx, key).push(row)
        } else {
            group_rows(rows, idx, key)
        },
{
    rows.lemma_filter_push(row, has_key(idx, key));
}

proof fn lemma_grouping_add_to(
    prev: Seq<(SpecValue, SpecDataset)>,
    d: SpecDataset,
    row: Seq<SpecValue>,
    idx: int,
    g: int,
)
    requires
        is_grouping(prev, d, idx),
        0 <= g < prev.len(),
        prev[g].0 == row[idx],
    ensures
        is_grouping(
            prev.update(g, (prev[g].0, SpecDataset { columns: prev[g].1.columns, rows: prev[g].1.rows.push(row) })),
            SpecDataset { columns: d.columns, rows: d.rows.push(row) },
            idx,
        ),
{
    let next = prev.update(g, (prev[g].0, SpecDataset { columns: prev[g].1.columns, rows: prev[g].1.rows.push(row) }));
    let nd = SpecDataset { columns: d.columns, rows: d.rows.push(row) };
    assert forall|i: int| 0 <= i < next.len() implies (#[trigger] next[i]).1.rows == group_rows(
        nd.rows,
        idx,
        next[i].0,
    ) by {
        lemma_group_rows_push(d.rows, row, idx, next[i].0);
        if i != g {
            assert(prev[i].0 != prev[g].0);
        }
    }
    assert forall|k: int| 0 <= k < nd.rows.len() implies key_listed(next, #[trigger] nd.rows[k][idx]) by {
        if k < d.rows.len() {
            assert(nd.rows[k] == d.rows[k]);
            assert(key_listed(prev, d.rows[k][idx]));
            let j = choose|j: int| 0 <= j < prev.len() && prev[j].0 == d.rows[k][idx];
            assert(next[j].0 == prev[j].0);
        } else {
            assert(next[g].0 == nd.rows[k][idx]);
        }
    }
    assert forall|i: int, j: int| 0 <= i < j < next.len() implies (#[trigger] next[i]).0 != (#[trigger] next[j]).0 by {
        assert(prev[i].0 != prev[j].0);
    }
}

proof fn lemma_grouping_new_group(
    prev: Seq<(SpecValue, SpecDataset)>,
    d: SpecDataset,
    row: Seq<SpecValue>,
    idx: int,
)
    requires
        is_grouping(prev, d, idx),
        0 <= idx < row.len(),
        forall|i: int| 0 <= i < prev.len() ==> prev[i].0 != row[idx],
    ensures
        is_grouping(
            prev.push((row[idx], SpecDataset { columns: d.columns, rows: seq![row] })),
            SpecDataset { columns: d.columns, rows: d.rows.push(row) },
            idx,
        ),
{
    let next = prev.push((row[idx], SpecDataset { columns: d.columns, rows: seq![row] }));
    let nd = SpecDataset { columns: d.columns, rows: d.rows.push(row) };
    assert forall|i: int| 0 <= i < next.len() implies (#[trigger] next[i]).1.rows == group_rows(
        nd.rows,
        idx,
        next[i].0,
    ) by {
        lemma_group_rows_push(d.rows, row, idx, next[i].0);
        if i == prev.len() {
            let pred = has_key(idx, row[idx]);
            let rs = d.rows.filter(pred);
            if rs.len() > 0 {
                d.rows.lemma_filter_pred(pred, 0);
                d.rows.lemma_filter_contains_rev(pred, rs[0]);
                let k = choose|k: int| 0 <= k < d.rows.len() && d.rows[k] == rs[0];
                assert(key_listed(prev, d.rows[k][idx]));
            let j = choose|j: int| 0 <= j < prev.len() && prev[j].0 == d.rows[k][idx];
                assert(prev[j].0 == row[idx]);
            }
            assert(rs =~= Seq::<Seq<SpecValue>>::empty());
            assert(seq![row] =~= Seq::<Seq<SpecValue>>::empty().push(row));
        } else {
            assert(next[i] == prev[i]);
        }
    }
    assert forall|k: int| 0 <= k < nd.rows.len() implies key_listed(next, #[trigger] nd.rows[k][idx]) by {
        if k < d.rows.len() {
            assert(nd.rows[k] == d.rows[k]);
            assert(key_listed(prev, d.rows[k][idx]));
            let j = choose|j: int| 0 <= j < prev.len() && prev[j].0 == d.rows[k][idx];
            assert(next[j].0 == prev[j].0);
        } else {
            assert(next[prev.len() as int].0 == nd.rows[k][idx]);
        }
    }
    assert forall|i: int, j: int| 0 <= i < j < next.len() implies (#[trigger] next[i]).0 != (#[trigger] next[j]).0 by {
        if j < prev.len() {
            assert(prev[i].0 != prev[j].0);
        } else {
            assert(next[i] == prev[i]);
        }
    }
}

/// The rows of `dataset` split into groups by their value in the column `group_by_column`:
/// one group per distinct value, each a dataset with the same columns.
pub fn group_by_dataset(dataset: Dataset, group_by_column: &String) -> (groups: Vec<(Value, Dataset)>)
    requires
        has_column(dataset@.columns, group_by_column@),
        rows_reach(dataset@.rows, column_position(dataset@.columns, group_by_column@)),
    ensures
        is_grouping(groups_view(groups@), dataset@, column_position(dataset@.columns, group_by_column@)),
{
    let col_idx = dataset.column_index(group_by_column);
    let ghost d = dataset@;
    let ghost idx = col_idx as int;
    let n = dataset.len();
    let mut groups: Vec<(Value, Dataset)> = Vec::new();
    let mut k: usize = 0;
    while k < n
        invariant
            n == d.rows.len(),
            d == dataset@,
            idx == col_idx,
            rows_reach(d.rows, idx),
            k <= n,
            is_grouping(groups_view(groups@), SpecDataset { columns: d.columns, rows: d.rows.take(k as int) }, idx),
        decreases n - k,
    {
        let row = dataset.row(k);
        let ghost prev = groups_view(groups@);
        let ghost rv = row@;
        assert(idx < rv.len());
        let key = row.get_value(col_idx);
        let m = groups.len();
        let mut g: usize = 0;
        while g < m
            invariant
                m == groups.len(),
                g <= m,
                forall|i: int| 0 <= i < g ==> groups@[i].0@ != key@,
            ensures
                g <= m,
                g < m ==> groups@[g as int].0@ == key@,
                forall|i: int| 0 <= i < g ==> groups@[i].0@ != key@,
            decreases m - g,
        {
            if groups[g].0 == *key {
                break;
            }
            g += 1;
        }
        if g < m {
            groups[g].1.add_row(row.clone());
            proof {
                lemma_grouping_add_to(prev, SpecDataset { columns: d.columns, rows: d.rows.take(k as int) }, rv, idx, g as int);
                assert(groups_view(groups@) =~= prev.update(
                    g as int,
                    (prev[g as int].0, SpecDataset { columns: prev[g as int].1.columns, rows: prev[g as int].1.rows.push(rv) }),
                ));
            }
        } else {
            let mut bucket = Dataset::new(copy_columns(dataset.columns()));
            bucket.add_row(row.clone());
            groups.push((key.clone(), bucket));
            proof {
                lemma_grouping_new_group(prev, SpecDataset { columns: d.columns, rows: d.rows.take(k as int) }, rv, idx);
                assert(bucket@.rows =~= seq![rv]);
                assert(groups_view(groups@) =~= prev.push((rv[idx], SpecDataset { columns: d.columns, rows: seq![rv] })));
            }
        }
        proof {
            assert(d.rows.take(k as int).push(rv) =~= d.rows.take(k + 1));
        }
        k += 1;
    }
    assert(d.rows.take(n as int) =~= d.rows);
    groups
}


/// The integer held by a value (zero for a string).
pub open spec fn int_of(v: SpecValue) -> int {
    match v {
        SpecValue::Int(i) => i as int,
        SpecValue::Str(_) => 0,
    }
}

/// The sum of the integers at position `idx` of `rows`.
pub open spec fn column_sum(rows: Seq<Seq<SpecValue>>, idx: int) -> int
    decreases rows.len(),
{
    if rows.len() == 0 {
        0
    } else {
        column_sum(rows.drop_last(), idx) + int_of(rows.last()[idx])
    }
}

/// Every row holds an integer at position `idx`.
pub open spec fn all_integers(rows: Seq<Seq<SpecValue>>, idx: int) -> bool {
    forall|k: int| 0 <= k < rows.len() ==> idx < rows[k].len() && (#[trigger] rows[k])[idx] is Int
}

/// Every running total of the integers at position `idx`, row by row, fits in an `i32`.
pub open spec fn sums_fit(rows: Seq<Seq<SpecValue>>, idx: int) -> bool {
    forall|k: int| 0 <= k <= rows.len() ==> i32::MIN <= #[trigger] column_sum(rows.take(k), idx) <= i32::MAX
}

/// Integer division rounded toward zero, as `i32` division does.
pub open spec fn div_toward_zero(a: int, b: int) -> int {
    if a >= 0 {
        a / b
    } else {
        -((-a) / b)
    }
}

/// The column an aggregation reads.
pub open spec fn aggregated_column(a: Aggregation) -> Seq<char> {
    match a {
        Aggregation::Count(c) => c@,
        Aggregation::Sum(c) => c@,
        Aggregation::Average(c) => c@,
    }
}

/// Aggregating `d` with `a` runs without a panic: a summed or averaged column exists and
/// holds integers whose running totals fit in an `i32`; an average has at least one row
/// and a row count that fits in an `i32`.
pub open spec fn aggregation_defined(d: SpecDataset, a: Aggregation) -> bool {
    match a {
        Aggregation::Count(_) => true,
        Aggregation::Sum(c) => {
            &&& has_column(d.columns, c@)
            &&& all_integers(d.rows, column_position(d.columns, c@))
            &&& sums_fit(d.rows, column_position(d.columns, c@))
        },
        Aggregation::Average(c) => {
            &&& has_column(d.columns, c@)
            &&& all_integers(d.rows, column_position(d.columns, c@))
            &&& sums_fit(d.rows, column_position(d.columns, c@))
            &&& 0 < d.rows.len() <= i32::MAX
        },
    }
}

/// The aggregate of the rows of `d`: their number (wrapped into an `i32`), the sum of the
/// column, or that sum divided by the number of rows, rounded toward zero.
pub open spec fn aggregate_of(d: SpecDataset, a: Aggregation) -> i32 {
    match a {
        Aggregation::Count(_) => d.rows.len() as i32,
        Aggregation::Sum(c) => column_sum(d.rows, column_position(d.columns, c@)) as i32,
        Aggregation::Average(c) => div_toward_zero(
            column_sum(d.rows, column_position(d.columns, c@)),
            d.rows.len() as int,
        ) as i32,
    }
}

proof fn lemma_column_sum_step(rows: Seq<Seq<SpecValue>>, idx: int, k: int)
    requires
        0 <= k < rows.len(),
    ensures
        column_sum(rows.take(k + 1), idx) == column_sum(rows.take(k), idx) + int_of(rows[k][idx]),
{
    assert(rows.take(k + 1).drop_last() =~= rows.take(k));
}

/// The sum of the integer column `column_name` over the rows of `d`.
fn sum_column(d: &Dataset, column_name: &String) -> (sum: i32)
    requires
        has_column(d@.columns, column_name@),
        all_integers(d@.rows, column_position(d@.columns, column_name@)),
        sums_fit(d@.rows, column_position(d@.columns, column_name@)),
    ensures
        sum == column_sum(d@.rows, column_position(d@.columns, column_name@)),
{
    let col_index = d.column_index(column_name);
    let ghost idx = col_index as int;
    let ghost rows = d@.rows;
    let n = d.len();
    let mut sum: i32 = 0;
    let mut k: usize = 0;
    assert(rows.take(0) =~= Seq::<Seq<SpecValue>>::empty());
    while k < n
        invariant
            n == rows.len(),
            rows == d@.rows,
            idx == col_index,
            all_integers(rows, idx),
            sums_fit(rows, idx),
            k <= n,
            sum == column_sum(rows.take(k as int), idx),
        decreases n - k,
    {
        let row = d.row(k);
        assert(rows[k as int][idx] is Int);
        proof {
            lemma_column_sum_step(rows, idx, k as int);
            assert(i32::MIN <= column_sum(rows.take(k + 1), idx) <= i32::MAX);
        }
        match row.get_value(col_index) {
            Value::Integer(val) => {
                sum += *val;
            },
            Value::String(_) => {},
        }
        k += 1;
    }
    assert(rows.take(n as int) =~= rows);
    sum
}

/// The aggregate of one group.
fn aggregate_group(d: &Dataset, aggregation: &Aggregation) -> (r: i32)
    requires
        aggregation_defined(d@, *aggregation),
    ensures
        r == aggregate_of(d@, *aggregation),
{
    match aggregation {
        Aggregation::Count(_column_name) => d.len() as i32,
        Aggregation::Sum(column_name) => sum_column(d, column_name),
        Aggregation::Average(column_name) => {
            let sum = sum_column(d, column_name);
            let count = d.len() as i32;
            sum / count
        },
    }
}

/// Each group's key paired with the aggregate of its rows, in the order of the groups.
pub fn aggregate_dataset(dataset: Vec<(Value, Dataset)>, aggregation: &Aggregation) -> (result: Vec<(Value, Value)>)
    requires
        forall|i: int| 0 <= i < dataset@.len() ==> aggregation_defined((#[trigger] dataset@[i]).1@, *aggregation),
    ensures
        result@.len() == dataset@.len(),
        forall|i: int| 0 <= i < result@.len() ==> (#[trigger] result@[i]).0@ == dataset@[i].0@
            && result@[i].1@ == SpecValue::Int(aggregate_of(dataset@[i].1@, *aggregation)),
{
    let mut result: Vec<(Value, Value)> = Vec::new();
    let n = dataset.len();
    for i in 0..n
        invariant
            n == dataset@.len(),
            forall|i: int| 0 <= i < dataset@.len() ==> aggregation_defined((#[trigger] dataset@[i]).1@, *aggregation),
            result@.len() == i,
            forall|j: int| 0 <= j < i ==> (#[trigger] result@[j]).0@ == dataset@[j].0@
                && result@[j].1@ == SpecValue::Int(aggregate_of(dataset@[j].1@, *aggregation)),
    {
        let (group_value, group_dataset) = &dataset[i];
        let v = aggregate_group(group_dataset, aggregation);
        result.push((group_value.clone(), Value::Integer(v)));
    }
    result
}


/// Some row of `rows` holds `key` first.
pub open spec fn key_in_rows(rows: Seq<Seq<SpecValue>>, key: SpecValue) -> bool {
    exists|i: int| 0 <= i < rows.len() && rows[i][0] == key
}

/// `rows` is the table a query builds from the filtered rows `f` of a dataset with columns
/// `columns`: one row per distinct value at position `pos` of `f`, that value first and the
/// aggregate of the rows holding it second.
pub open spec fn is_query_table(
    rows: Seq<Seq<SpecValue>>,
    columns: Seq<(Seq<char>, ColumnType)>,
    f: Seq<Seq<SpecValue>>,
    pos: int,
    a: Aggregation,
) -> bool {
    &&& forall|i: int| 0 <= i < rows.len() ==> (#[trigger] rows[i]).len() == 2
    &&& forall|i: int| 0 <= i < rows.len() ==> group_rows(f, pos, (#[trigger] rows[i])[0]).len() > 0
    &&& forall|i: int| 0 <= i < rows.len() ==> (#[trigger] rows[i])[1] == SpecValue::Int(
        aggregate_of(SpecDataset { columns, rows: group_rows(f, pos, rows[i][0]) }, a),
    )
    &&& forall|i: int, j: int| 0 <= i < j < rows.len() ==> (#[trigger] rows[i])[0] != (#[trigger] rows[j])[0]
    &&& forall|k: int| 0 <= k < f.len() ==> key_in_rows(rows, #[trigger] f[k][pos])
}

/// The query can be run on `d` without a panic: its filter can test every row, its grouping
/// column exists and every kept row has a value there, and the aggregation is defined on
/// every group.
pub open spec fn query_defined(d: SpecDataset, q: Query) -> bool {
    let f = filtered_rows(d, q.filter());
    let pos = column_position(d.columns, q.group_by()@);
    &&& filter_evaluates(d, q.filter())
    &&& has_column(d.columns, q.group_by()@)
    &&& rows_reach(f, pos)
    &&& forall|k: int| 0 <= k < f.len() ==> aggregation_defined(
        SpecDataset { columns: d.columns, rows: group_rows(f, pos, #[trigger] f[k][pos]) },
        q.aggregate(),
    )
}

/// Runs `query` on `dataset`: keeps the rows that satisfy the filter, groups them by the
/// grouping column and returns a two-column dataset of each group's value and aggregate.
pub fn compute_query_on_dataset(dataset: &Dataset, query: &Query) -> (result: Dataset)
    requires
        query_defined(dataset@, *query),
    ensures
        result@.columns == seq![
            (query.group_by()@, dataset@.columns[column_position(dataset@.columns, query.group_by()@)].1),
            (result_column_name(query.aggregate()), ColumnType::Integer),
        ],
        is_query_table(
            result@.rows,
            dataset@.columns,
            filtered_rows(dataset@, query.filter()),
            column_position(dataset@.columns, query.group_by()@),
            query.aggregate(),
        ),
{
    let ghost d = dataset@;
    let ghost f = filtered_rows(d, query.filter());
    let ghost pos = column_position(d.columns, query.group_by()@);
    let filtered = filter_dataset(dataset, query.get_filter());
    let grouped = group_by_dataset(filtered, query.get_group_by());
    let ghost g = groups_view(grouped@);
    proof {
        assert forall|i: int| 0 <= i < grouped@.len() implies aggregation_defined(
            (#[trigger] grouped@[i]).1@,
            query.aggregate(),
        ) by {
            assert(g[i] == (grouped@[i].0@, grouped@[i].1@));
            let rs = g[i].1.rows;
            let pred = has_key(pos, g[i].0);
            f.lemma_filter_pred(pred, 0);
            f.lemma_filter_contains_rev(pred, rs[0]);
            let k = choose|k: int| 0 <= k < f.len() && f[k] == rs[0];
            assert(f[k][pos] == g[i].0);
        }
    }
    let aggregated = aggregate_dataset(grouped, query.get_aggregate());

    // Create the name of the columns.
    let group_by_column_name = query.get_group_by();
    let group_by_column_type = dataset.column_type(group_by_column_name);
    let columns = vec![
        (group_by_column_name.clone(), *group_by_column_type),
        (query.get_aggregate().get_result_column_name(), ColumnType::Integer),
    ];

    // Create result dataset object and fill it with the results.
    let mut result = Dataset::new(columns);
    let n = aggregated.len();
    for i in 0..n
        invariant
            n == aggregated@.len(),
            n == g.len(),
            is_grouping(g, SpecDataset { columns: d.columns, rows: f }, pos),
            forall|j: int| 0 <= j < n ==> (#[trigger] aggregated@[j]).0@ == g[j].0
                && aggregated@[j].1@ == SpecValue::Int(aggregate_of(g[j].1, query.aggregate())),
            result@.columns == seq![
                (query.group_by()@, d.columns[pos].1),
                (result_column_name(query.aggregate()), ColumnType::Integer),
            ],
            result@.rows.len() == i,
            forall|j: int| 0 <= j < i ==> (#[trigger] result@.rows[j]) == seq![g[j].0, aggregated@[j].1@],
    {
        let (grouped_value, aggregation_value) = &aggregated[i];
        result.add_row(Row::new(vec![grouped_value.clone(), aggregation_value.clone()]));
    }
    proof {
        let rows = result@.rows;
        assert forall|k: int| 0 <= k < f.len() implies key_in_rows(rows, #[trigger] f[k][pos]) by {
            assert(key_listed(g, f[k][pos]));
            let j = choose|j: int| 0 <= j < g.len() && g[j].0 == f[k][pos];
            assert(rows[j][0] == g[j].0);
        }
        assert forall|i: int, j: int| 0 <= i < j < rows.len() implies (#[trigger] rows[i])[0] != (#[trigger] rows[j])[0] by {
            assert(g[i].0 != g[j].0);
        }
    }
    return result;
}


/// Whether `condition` can be tested on `row` without a panic.
fn condition_can_evaluate(row: &Row, dataset: &Dataset, condition: &Condition) -> (r: bool)
    ensures
        r == condition_evaluates(row@, dataset@.columns, *condition),
    decreases *condition,
{
    match condition {
        Condition::Equal(col_name, _expected_value) => {
            match dataset.find_column(col_name) {
                Some(idx) => idx < row.get_values().len(),
                None => false,
            }
        },
        Condition::Not(inner) => condition_can_evaluate(row, dataset, inner),
        Condition::And(left, right) => {
            if !condition_can_evaluate(row, dataset, left) {
                false
            } else if row_matches(row, dataset, left) {
                condition_can_evaluate(row, dataset, right)
            } else {
                true
            }
        },
        Condition::Or(left, right) => {
            if !condition_can_evaluate(row, dataset, left) {
                false
            } else if !row_matches(row, dataset, left) {
                condition_can_evaluate(row, dataset, right)
            } else {
                true
            }
        },
    }
}

/// Whether the aggregation can run on `d` without a panic.
fn aggregation_can_run(d: &Dataset, aggregation: &Aggregation) -> (r: bool)
    ensures
        r == aggregation_defined(d@, *aggregation),
{
    let column_name = match aggregation {
        Aggregation::Count(_) => {
            return true;
        },
        Aggregation::Sum(c) => c,
        Aggregation::Average(c) => c,
    };
    assert(column_name@ == aggregated_column(*aggregation));
    let idx = match d.find_column(column_name) {
        Some(i) => i,
        None => {
            return false;
        },
    };
    let ghost rows = d@.rows;
    let ghost pos = idx as int;
    let n = d.len();
    let mut sum: i64 = 0;
    assert(rows.take(0) =~= Seq::<Seq<SpecValue>>::empty());
    for k in 0..n
        invariant
            n == rows.len(),
            rows == d@.rows,
            pos == idx,
            pos == column_position(d@.columns, aggregated_column(*aggregation)),
            has_column(d@.columns, aggregated_column(*aggregation)),
            !(*aggregation is Count),
            sum == column_sum(rows.take(k as int), pos),
            i32::MIN <= sum <= i32::MAX,
            forall|j: int| 0 <= j < k ==> pos < rows[j].len() && (#[trigger] rows[j])[pos] is Int,
            forall|j: int| 0 <= j <= k ==> fits_sum(#[trigger] column_sum(rows.take(j), pos)),
    {
        let row = d.row(k);
        if idx >= row.get_values().len() {
            assert(!(pos < rows[k as int].len()));
            assert(!all_integers(rows, pos));
            return false;
        }
        match row.get_value(idx) {
            Value::Integer(v) => {
                proof {
                    lemma_column_sum_step(rows, pos, k as int);
                }
                sum = sum + *v as i64;
                if sum < i32::MIN as i64 || sum > i32::MAX as i64 {
                    assert(!fits_sum(column_sum(rows.take(k + 1), pos)));
                    return false;
                }
            },
            Value::String(_) => {
                assert(!(rows[k as int][pos] is Int));
                return false;
            },
        }
    }
    assert(rows.take(n as int) =~= rows);
    match aggregation {
        Aggregation::Average(_) => n > 0 && n <= 0x7fff_ffffusize,
        _ => true,
    }
}

/// `x` lies in the range of an `i32`.
pub open spec fn fits_sum(x: int) -> bool {
    i32::MIN <= x <= i32::MAX
}

/// Whether `query` can be run on `dataset` without a panic.
pub fn query_can_run(dataset: &Dataset, query: &Query) -> (r: bool)
    ensures
        r == query_defined(dataset@, *query),
{
    let ghost d = dataset@;
    let n = dataset.len();
    for k in 0..n
        invariant
            n == d.rows.len(),
            d == dataset@,
            forall|j: int| 0 <= j < k ==> condition_evaluates(#[trigger] d.rows[j], d.columns, query.filter()),
    {
        if !condition_can_evaluate(dataset.row(k), dataset, query.get_filter()) {
            return false;
        }
    }
    let pos_exec = match dataset.find_column(query.get_group_by()) {
        Some(i) => i,
        None => {
            return false;
        },
    };
    let ghost pos = pos_exec as int;
    let filtered = filter_dataset(dataset, query.get_filter());
    let ghost f = filtered@.rows;
    let m = filtered.len();
    for k in 0..m
        invariant
            m == f.len(),
            f == filtered@.rows,
            pos == pos_exec,
            d == dataset@,
            f == filtered_rows(d, query.filter()),
            pos == column_position(d.columns, query.group_by()@),
            has_column(d.columns, query.group_by()@),
            filter_evaluates(d, query.filter()),
            forall|j: int| 0 <= j < k ==> pos < #[trigger] f[j].len(),
    {
        if pos_exec >= filtered.row(k).get_values().len() {
            assert(!(pos < f[k as int].len()));
            assert(!rows_reach(f, pos));
            assert(!query_defined(d, *query));
            return false;
        }
    }
    let groups = group_by_dataset(filtered, query.get_group_by());
    let ghost g = groups_view(groups@);
    let ng = groups.len();
    for i in 0..ng
        invariant
            ng == groups@.len(),
            g == groups_view(groups@),
            d == dataset@,
            f == filtered_rows(d, query.filter()),
            pos == column_position(d.columns, query.group_by()@),
            has_column(d.columns, query.group_by()@),
            filter_evaluates(d, query.filter()),
            rows_reach(f, pos),
            is_grouping(g, SpecDataset { columns: d.columns, rows: f }, pos),
            forall|j: int| 0 <= j < i ==> aggregation_defined(#[trigger] g[j].1, query.aggregate()),
    {
        if !aggregation_can_run(&groups[i].1, query.get_aggregate()) {
            proof {
                assert(g[i as int].1 == groups@[i as int].1@);
                let rs = g[i as int].1.rows;
                let pred = has_key(pos, g[i as int].0);
                f.lemma_filter_pred(pred, 0);
                f.lemma_filter_contains_rev(pred, rs[0]);
                let k = choose|k: int| 0 <= k < f.len() && f[k] == rs[0];
                assert(f[k][pos] == g[i as int].0);
                assert(g[i as int].1 == SpecDataset { columns: d.columns, rows: group_rows(f, pos, f[k][pos]) });
                assert(!aggregation_defined(g[i as int].1, query.aggregate()));
                assert(!query_defined(d, *query));
            }
            return false;
        }
    }
    proof {
        assert forall|k: int| 0 <= k < f.len() implies aggregation_defined(
            SpecDataset { columns: d.columns, rows: group_rows(f, pos, #[trigger] f[k][pos]) },
            query.aggregate(),
        ) by {
            assert(key_listed(g, f[k][pos]));
            let i = choose|i: int| 0 <= i < g.len() && g[i].0 == f[k][pos];
            assert(g[i].1 == SpecDataset { columns: d.columns, rows: group_rows(f, pos, f[k][pos]) });
        }
    }
    true
}

/// Runs `query` on `dataset` where [`compute_query_on_dataset`] can run it.
pub fn checked_compute_query(dataset: &Dataset, query: &Query) -> (r: Option<Dataset>)
    ensures
        r is Some <==> query_defined(dataset@, *query),
        r matches Some(result) ==> result@.columns == seq![
            (query.group_by()@, dataset@.columns[column_position(dataset@.columns, query.group_by()@)].1),
            (result_column_name(query.aggregate()), ColumnType::Integer),
        ] && is_query_table(
            result@.rows,
            dataset@.columns,
            filtered_rows(dataset@, query.filter()),
            column_position(dataset@.columns, query.group_by()@),
            query.aggregate(),
        ),
{
    if query_can_run(dataset, query) {
        Some(compute_query_on_dataset(dataset, query))
    } else {
        None
    }
}

} // verus!

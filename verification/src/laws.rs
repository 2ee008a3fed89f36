//! Properties of the query operations that relate several calls.

use vstd::prelude::*;
use crate::dataset::{ColumnType, SpecDataset, SpecValue, same_rows};
use crate::query::{Aggregation, Condition, condition_evaluates, condition_holds};
use crate::solution::{
    aggregate_of, aggregation_defined, column_sum, div_toward_zero, filter_evaluates, int_of, filtered_rows, group_rows, has_key, is_grouping, is_query_table, key_in_rows,
    key_listed,
};
use crate::dataset::{Value, column_position};
use vstd::seq_lib::lemma_multiset_commutative;

verus! {

proof fn lemma_filter_complement(rows: Seq<Seq<SpecValue>>, p: spec_fn(Seq<SpecValue>) -> bool, q: spec_fn(Seq<SpecValue>) -> bool)
    requires
        forall|r: Seq<SpecValue>| #[trigger] q(r) == !p(r),
    ensures
        rows.filter(p).len() + rows.filter(q).len() == rows.len(),
    decreases rows.len(),
{
    if rows.len() > 0 {
        let init = rows.drop_last();
        lemma_filter_complement(init, p, q);
        init.lemma_filter_push(rows.last(), p);
        init.lemma_filter_push(rows.last(), q);
        assert(init.push(rows.last()) =~= rows);
    } else {
        reveal_with_fuel(Seq::<_>::filter, 1);
    }
}

/// Every row satisfies exactly one of a condition and its negation: filtering by both
/// splits the rows between the two results. The negation can be tested on exactly the
/// datasets the condition can.
pub proof fn lemma_filter_not_partitions(d: SpecDataset, c: Condition)
    ensures
        filtered_rows(d, c).len() + filtered_rows(d, Condition::Not(Box::new(c))).len() == d.rows.len(),
        filter_evaluates(d, c) == filter_evaluates(d, Condition::Not(Box::new(c))),
{
    assert(forall|i: int| 0 <= i < d.rows.len() ==> condition_evaluates(#[trigger] d.rows[i], d.columns, c)
        == condition_evaluates(d.rows[i], d.columns, Condition::Not(Box::new(c))));
    let p = |r: Seq<SpecValue>| condition_holds(r, d.columns, c);
    let q = |r: Seq<SpecValue>| condition_holds(r, d.columns, Condition::Not(Box::new(c)));
    lemma_filter_complement(d.rows, p, q);
}

proof fn lemma_filter_and(
    rows: Seq<Seq<SpecValue>>,
    p: spec_fn(Seq<SpecValue>) -> bool,
    q: spec_fn(Seq<SpecValue>) -> bool,
    pq: spec_fn(Seq<SpecValue>) -> bool,
)
    requires
        forall|r: Seq<SpecValue>| #[trigger] pq(r) == (p(r) && q(r)),
    ensures
        rows.filter(pq) == rows.filter(p).filter(q),
    decreases rows.len(),
{
    if rows.len() > 0 {
        let init = rows.drop_last();
        let x = rows.last();
        lemma_filter_and(init, p, q, pq);
        init.lemma_filter_push(x, pq);
        init.lemma_filter_push(x, p);
        init.filter(p).lemma_filter_push(x, q);
        assert(init.push(x) =~= rows);
    } else {
        reveal_with_fuel(Seq::<_>::filter, 1);
        assert(rows.filter(p) =~= rows);
    }
}

/// Filtering by `And(a, b)` keeps what filtering by `a` and then by `b` keeps, in the
/// same order.
pub proof fn lemma_filter_and_composes(d: SpecDataset, a: Condition, b: Condition)
    ensures
        filtered_rows(d, Condition::And(Box::new(a), Box::new(b))) == filtered_rows(
            SpecDataset { columns: d.columns, rows: filtered_rows(d, a) },
            b,
        ),
{
    let p = |r: Seq<SpecValue>| condition_holds(r, d.columns, a);
    let q = |r: Seq<SpecValue>| condition_holds(r, d.columns, b);
    let pq = |r: Seq<SpecValue>| condition_holds(r, d.columns, Condition::And(Box::new(a), Box::new(b)));
    lemma_filter_and(d.rows, p, q, pq);
}

/// A condition negated twice holds exactly where the condition holds.
pub proof fn lemma_double_negation(row: Seq<SpecValue>, columns: Seq<(Seq<char>, ColumnType)>, c: Condition)
    ensures
        condition_holds(row, columns, Condition::Not(Box::new(Condition::Not(Box::new(c))))) == condition_holds(
            row,
            columns,
            c,
        ),
{
    assert(condition_holds(row, columns, Condition::Not(Box::new(c))) == !condition_holds(row, columns, c));
}

/// Datasets compare equal regardless of the order of their rows.
pub proof fn lemma_row_order_irrelevant(a: Seq<Seq<SpecValue>>, b: Seq<Seq<SpecValue>>)
    ensures
        same_rows(a + b, b + a),
{
    lemma_multiset_commutative(a, b);
    lemma_multiset_commutative(b, a);
    assert(a.to_multiset().add(b.to_multiset()) =~= b.to_multiset().add(a.to_multiset()));
}

/// Two datasets with the same rows up to order have as many rows, the same rows, and each
/// row as often; adding a row to one of two such row lists breaks it.
pub proof fn lemma_same_rows_is_permutation(a: Seq<Seq<SpecValue>>, b: Seq<Seq<SpecValue>>, x: Seq<SpecValue>)
    requires
        same_rows(a, b),
    ensures
        a.len() == b.len(),
        a.contains(x) <==> b.contains(x),
        a.to_multiset().count(x) == b.to_multiset().count(x),
        !same_rows(a.push(x), b),
{
    vstd::seq_lib::to_multiset_len(a);
    vstd::seq_lib::to_multiset_len(b);
    vstd::seq_lib::to_multiset_contains(a, x);
    vstd::seq_lib::to_multiset_contains(b, x);
    vstd::seq_lib::to_multiset_len(a.push(x));
}

/// Grouping puts every row in exactly one group: the one whose key is the row's value in
/// the grouping column, and that group holds the row.
pub proof fn lemma_row_in_one_group(g: Seq<(SpecValue, SpecDataset)>, d: SpecDataset, idx: int, k: int)
    requires
        is_grouping(g, d, idx),
        0 <= k < d.rows.len(),
    ensures
        exists|i: int| 0 <= i < g.len() && g[i].0 == d.rows[k][idx] && g[i].1.rows.contains(d.rows[k]),
        forall|i: int, j: int|
            0 <= i < g.len() && 0 <= j < g.len() && g[i].0 == d.rows[k][idx] && g[j].0 == d.rows[k][idx] ==> i == j,
{
    assert(key_listed(g, d.rows[k][idx]));
    let i = choose|i: int| 0 <= i < g.len() && g[i].0 == d.rows[k][idx];
    assert(g[i].1.rows == group_rows(d.rows, idx, g[i].0));
    d.rows.lemma_filter_contains(has_key(idx, g[i].0), k);
    assert forall|i: int, j: int|
        0 <= i < g.len() && 0 <= j < g.len() && g[i].0 == d.rows[k][idx] && g[j].0 == d.rows[k][idx] implies i == j by {
        if i < j {
            assert(g[i].0 != g[j].0);
        } else if j < i {
            assert(g[j].0 != g[i].0);
        }
    }
}


/// The total number of rows over the groups.
pub open spec fn total_group_size(g: Seq<(SpecValue, SpecDataset)>) -> int
    decreases g.len(),
{
    if g.len() == 0 {
        0
    } else {
        total_group_size(g.drop_last()) + g.last().1.rows.len()
    }
}

proof fn lemma_filter_disjoint_union(
    rows: Seq<Seq<SpecValue>>,
    p: spec_fn(Seq<SpecValue>) -> bool,
    q: spec_fn(Seq<SpecValue>) -> bool,
    pq: spec_fn(Seq<SpecValue>) -> bool,
)
    requires
        forall|r: Seq<SpecValue>| #[trigger] pq(r) == (p(r) || q(r)),
        forall|r: Seq<SpecValue>| !(#[trigger] p(r) && q(r)),
    ensures
        rows.filter(pq).len() == rows.filter(p).len() + rows.filter(q).len(),
    decreases rows.len(),
{
    if rows.len() > 0 {
        let init = rows.drop_last();
        lemma_filter_disjoint_union(init, p, q, pq);
        init.lemma_filter_push(rows.last(), p);
        init.lemma_filter_push(rows.last(), q);
        init.lemma_filter_push(rows.last(), pq);
        assert(init.push(rows.last()) =~= rows);
    } else {
        reveal_with_fuel(Seq::<_>::filter, 1);
    }
}

proof fn lemma_filter_all(rows: Seq<Seq<SpecValue>>, p: spec_fn(Seq<SpecValue>) -> bool)
    requires
        forall|k: int| 0 <= k < rows.len() ==> #[trigger] p(rows[k]),
    ensures
        rows.filter(p) == rows,
    decreases rows.len(),
{
    if rows.len() > 0 {
        let init = rows.drop_last();
        assert forall|k: int| 0 <= k < init.len() implies #[trigger] p(init[k]) by {
            assert(init[k] == rows[k]);
        }
        lemma_filter_all(init, p);
        init.lemma_filter_push(rows.last(), p);
        assert(init.push(rows.last()) =~= rows);
    } else {
        reveal_with_fuel(Seq::<_>::filter, 1);
    }
}

/// The test that a row's value at `idx` is the key of one of the first `m` groups.
pub open spec fn in_first_groups(g: Seq<(SpecValue, SpecDataset)>, m: int, idx: int) -> spec_fn(Seq<SpecValue>) -> bool {
    |r: Seq<SpecValue>| exists|i: int| 0 <= i < m && g[i].0 == r[idx]
}

proof fn lemma_first_groups_size(g: Seq<(SpecValue, SpecDataset)>, d: SpecDataset, idx: int, m: int)
    requires
        is_grouping(g, d, idx),
        0 <= m <= g.len(),
    ensures
        d.rows.filter(in_first_groups(g, m, idx)).len() == total_group_size(g.take(m)),
    decreases m,
{
    if m == 0 {
        let p = in_first_groups(g, 0, idx);
        let all = |r: Seq<SpecValue>| true;
        assert forall|r: Seq<SpecValue>| #[trigger] all(r) == !p(r) by {}
        lemma_filter_complement(d.rows, p, all);
        lemma_filter_all(d.rows, all);
        assert(g.take(0).len() == 0);
    } else {
        lemma_first_groups_size(g, d, idx, m - 1);
        let p = in_first_groups(g, m - 1, idx);
        let q = has_key(idx, g[m - 1].0);
        let pq = in_first_groups(g, m, idx);
        assert forall|r: Seq<SpecValue>| #[trigger] pq(r) == (p(r) || q(r)) by {
            if pq(r) {
                let i = choose|i: int| 0 <= i < m && g[i].0 == r[idx];
                if i < m - 1 {
                    assert(p(r));
                }
            }
            if p(r) {
                let i = choose|i: int| 0 <= i < m - 1 && g[i].0 == r[idx];
                assert(pq(r));
            }
            if q(r) {
                assert(g[m - 1].0 == r[idx]);
                assert(pq(r));
            }
        }
        assert forall|r: Seq<SpecValue>| !(#[trigger] p(r) && q(r)) by {
            if p(r) && q(r) {
                let i = choose|i: int| 0 <= i < m - 1 && g[i].0 == r[idx];
                assert(g[i].0 != g[m - 1].0);
            }
        }
        lemma_filter_disjoint_union(d.rows, p, q, pq);
        assert(g[m - 1].1.rows == group_rows(d.rows, idx, g[m - 1].0));
        assert(g.take(m).drop_last() =~= g.take(m - 1));
    }
}

/// Grouping loses and duplicates no row: the sizes of the groups add up to the number of
/// rows grouped.
pub proof fn lemma_groups_cover_rows(g: Seq<(SpecValue, SpecDataset)>, d: SpecDataset, idx: int)
    requires
        is_grouping(g, d, idx),
    ensures
        total_group_size(g) == d.rows.len(),
{
    lemma_first_groups_size(g, d, idx, g.len() as int);
    let p = in_first_groups(g, g.len() as int, idx);
    assert forall|k: int| 0 <= k < d.rows.len() implies #[trigger] p(d.rows[k]) by {
        assert(key_listed(g, d.rows[k][idx]));
    }
    lemma_filter_all(d.rows, p);
    assert(g.take(g.len() as int) =~= g);
}


/// Filtering twice by the same condition keeps what filtering once keeps, and the rows kept
/// can be tested again wherever the first filter could test them.
pub proof fn lemma_filter_idempotent(d: SpecDataset, c: Condition)
    ensures
        filtered_rows(SpecDataset { columns: d.columns, rows: filtered_rows(d, c) }, c) == filtered_rows(d, c),
        filter_evaluates(d, c) ==> filter_evaluates(SpecDataset { columns: d.columns, rows: filtered_rows(d, c) }, c),
{
    let p = |r: Seq<SpecValue>| condition_holds(r, d.columns, c);
    lemma_filter_and(d.rows, p, p, p);
    if filter_evaluates(d, c) {
        let f = filtered_rows(d, c);
        assert forall|i: int| 0 <= i < f.len() implies condition_evaluates(#[trigger] f[i], d.columns, c) by {
            assert(f.contains(f[i]));
            d.rows.lemma_filter_contains_rev(p, f[i]);
            let k = choose|k: int| 0 <= k < d.rows.len() && d.rows[k] == f[i];
            assert(condition_evaluates(d.rows[k], d.columns, c));
        }
    }
}

/// The group of a key holds exactly what filtering the grouped rows by "the grouping
/// column equals the key" keeps.
pub proof fn lemma_group_is_equality_filter(
    g: Seq<(SpecValue, SpecDataset)>,
    d: SpecDataset,
    name: String,
    key: Value,
    i: int,
)
    requires
        is_grouping(g, d, column_position(d.columns, name@)),
        0 <= i < g.len(),
        g[i].0 == key@,
    ensures
        g[i].1 == (SpecDataset { columns: d.columns, rows: filtered_rows(d, Condition::Equal(name, key)) }),
{
    let idx = column_position(d.columns, name@);
    let p = |r: Seq<SpecValue>| condition_holds(r, d.columns, Condition::Equal(name, key));
    assert(p =~= has_key(idx, key@));
}

/// The table a query builds: each group's key with its aggregate.
pub open spec fn table_of(g: Seq<(SpecValue, SpecDataset)>, a: Aggregation) -> Seq<Seq<SpecValue>> {
    g.map_values(|e: (SpecValue, SpecDataset)| seq![e.0, SpecValue::Int(aggregate_of(e.1, a))])
}

proof fn lemma_same_elements(a: Seq<Seq<SpecValue>>, b: Seq<Seq<SpecValue>>)
    requires
        a.no_duplicates(),
        b.no_duplicates(),
        forall|x: Seq<SpecValue>| a.contains(x) <==> b.contains(x),
    ensures
        a.to_multiset() == b.to_multiset(),
{
    a.lemma_multiset_has_no_duplicates();
    b.lemma_multiset_has_no_duplicates();
    assert forall|x: Seq<SpecValue>| a.to_multiset().count(x) == b.to_multiset().count(x) by {
        vstd::seq_lib::to_multiset_contains(a, x);
        vstd::seq_lib::to_multiset_contains(b, x);
    }
    assert(a.to_multiset() =~= b.to_multiset());
}

proof fn lemma_group_key_in_rows(f: Seq<Seq<SpecValue>>, pos: int, key: SpecValue)
    requires
        group_rows(f, pos, key).len() > 0,
    ensures
        exists|m: int| 0 <= m < f.len() && (#[trigger] f[m])[pos] == key,
{
    let rs = group_rows(f, pos, key);
    let pred = has_key(pos, key);
    f.lemma_filter_pred(pred, 0);
    assert(rs.contains(rs[0]));
    f.lemma_filter_contains_rev(pred, rs[0]);
    let m = choose|m: int| 0 <= m < f.len() && f[m] == rs[0];
    assert(f[m][pos] == key);
}

/// A query's table is, up to the order of its rows, the key and aggregate of each group
/// that grouping the filtered rows gives: running a query is filtering, then grouping,
/// then aggregating.
pub proof fn lemma_query_is_composition(
    rows: Seq<Seq<SpecValue>>,
    columns: Seq<(Seq<char>, ColumnType)>,
    f: Seq<Seq<SpecValue>>,
    pos: int,
    a: Aggregation,
    g: Seq<(SpecValue, SpecDataset)>,
)
    requires
        is_query_table(rows, columns, f, pos, a),
        is_grouping(g, SpecDataset { columns, rows: f }, pos),
    ensures
        same_rows(rows, table_of(g, a)),
{
    let t = table_of(g, a);
    assert forall|i: int, j: int| 0 <= i < rows.len() && 0 <= j < rows.len() && i != j implies rows[i] != rows[j] by {
        if i < j {
            assert(rows[i][0] != rows[j][0]);
        } else {
            assert(rows[j][0] != rows[i][0]);
        }
    }
    assert forall|i: int, j: int| 0 <= i < t.len() && 0 <= j < t.len() && i != j implies t[i] != t[j] by {
        if i < j {
            assert(g[i].0 != g[j].0);
        } else {
            assert(g[j].0 != g[i].0);
        }
        assert(t[i][0] == g[i].0 && t[j][0] == g[j].0);
    }
    assert forall|x: Seq<SpecValue>| rows.contains(x) <==> t.contains(x) by {
        if rows.contains(x) {
            let i = choose|i: int| 0 <= i < rows.len() && rows[i] == x;
            let key = rows[i][0];
            lemma_group_key_in_rows(f, pos, key);
            let m = choose|m: int| 0 <= m < f.len() && (#[trigger] f[m])[pos] == key;
            let d = SpecDataset { columns, rows: f };
            assert(d.rows[m][pos] == key);
            assert(key_listed(g, d.rows[m][pos]));
            let j = choose|j: int| 0 <= j < g.len() && g[j].0 == f[m][pos];
            assert(g[j].1 == SpecDataset { columns, rows: group_rows(f, pos, key) });
            assert(t[j] =~= x);
        }
        if t.contains(x) {
            let j = choose|j: int| 0 <= j < t.len() && t[j] == x;
            let key = g[j].0;
            assert(g[j].1.rows == group_rows(f, pos, key));
            lemma_group_key_in_rows(f, pos, key);
            let m = choose|m: int| 0 <= m < f.len() && (#[trigger] f[m])[pos] == key;
            assert(key_in_rows(rows, f[m][pos]));
            let i = choose|i: int| 0 <= i < rows.len() && rows[i][0] == key;
            assert(g[j].1 == SpecDataset { columns, rows: group_rows(f, pos, key) });
            assert(rows[i] =~= x);
            assert(rows.contains(x));
        }
    }
    lemma_same_elements(rows, t);
}


/// The meaning of each kind of condition on a row: `Equal` holds where the row's value in
/// the first column of that name is the given value, `Not` holds where its condition does
/// not, `And` where both hold, `Or` where at least one holds; and `Or` is `And` through
/// De Morgan's law.
pub proof fn lemma_condition_meaning(
    row: Seq<SpecValue>,
    columns: Seq<(Seq<char>, ColumnType)>,
    name: String,
    v: Value,
    l: Condition,
    r: Condition,
)
    ensures
        condition_holds(row, columns, Condition::Equal(name, v)) <==> row[column_position(columns, name@)] == v@,
        condition_holds(row, columns, Condition::Not(Box::new(l))) <==> !condition_holds(row, columns, l),
        condition_holds(row, columns, Condition::And(Box::new(l), Box::new(r))) <==> condition_holds(row, columns, l)
            && condition_holds(row, columns, r),
        condition_holds(row, columns, l) ==> condition_holds(row, columns, Condition::Or(Box::new(l), Box::new(r))),
        condition_holds(row, columns, r) ==> condition_holds(row, columns, Condition::Or(Box::new(l), Box::new(r))),
        !condition_holds(row, columns, l) && !condition_holds(row, columns, r) ==> !condition_holds(
            row,
            columns,
            Condition::Or(Box::new(l), Box::new(r)),
        ),
        condition_holds(row, columns, Condition::Or(Box::new(l), Box::new(r))) == condition_holds(
            row,
            columns,
            Condition::Not(
                Box::new(Condition::And(Box::new(Condition::Not(Box::new(l))), Box::new(Condition::Not(Box::new(r))))),
            ),
        ),
{
    let nl = Condition::Not(Box::new(l));
    let nr = Condition::Not(Box::new(r));
    assert(condition_holds(row, columns, nl) == !condition_holds(row, columns, l));
    assert(condition_holds(row, columns, nr) == !condition_holds(row, columns, r));
    assert(condition_holds(row, columns, Condition::And(Box::new(nl), Box::new(nr))) == (condition_holds(
        row,
        columns,
        nl,
    ) && condition_holds(row, columns, nr)));
}

/// Filtering by `Or(l, r)` keeps every row that filtering by `l` keeps and every row that
/// filtering by `r` keeps, and nothing else; filtering by `Equal` keeps exactly the rows
/// holding the value in the named column.
pub proof fn lemma_filter_or_keeps_either(d: SpecDataset, l: Condition, r: Condition, name: String, v: Value)
    ensures
        forall|x: Seq<SpecValue>|
            filtered_rows(d, Condition::Or(Box::new(l), Box::new(r))).contains(x) <==> (filtered_rows(d, l).contains(x)
                || filtered_rows(d, r).contains(x)),
        forall|x: Seq<SpecValue>|
            filtered_rows(d, Condition::Equal(name, v)).contains(x) <==> (d.rows.contains(x)
                && x[column_position(d.columns, name@)] == v@),
{
    let o = Condition::Or(Box::new(l), Box::new(r));
    let po = |x: Seq<SpecValue>| condition_holds(x, d.columns, o);
    let pl = |x: Seq<SpecValue>| condition_holds(x, d.columns, l);
    let pr = |x: Seq<SpecValue>| condition_holds(x, d.columns, r);
    let e = Condition::Equal(name, v);
    let pe = |x: Seq<SpecValue>| condition_holds(x, d.columns, e);
    assert forall|x: Seq<SpecValue>| filtered_rows(d, o).contains(x) <==> (filtered_rows(d, l).contains(x)
        || filtered_rows(d, r).contains(x)) by {
        lemma_filter_membership(d.rows, po, x);
        lemma_filter_membership(d.rows, pl, x);
        lemma_filter_membership(d.rows, pr, x);
    }
    assert forall|x: Seq<SpecValue>| filtered_rows(d, e).contains(x) <==> (d.rows.contains(x)
        && x[column_position(d.columns, name@)] == v@) by {
        lemma_filter_membership(d.rows, pe, x);
    }
}

proof fn lemma_filter_membership(rows: Seq<Seq<SpecValue>>, p: spec_fn(Seq<SpecValue>) -> bool, x: Seq<SpecValue>)
    ensures
        rows.filter(p).contains(x) <==> (rows.contains(x) && p(x)),
{
    if rows.filter(p).contains(x) {
        rows.lemma_filter_contains_rev(p, x);
        let i = choose|i: int| 0 <= i < rows.filter(p).len() && rows.filter(p)[i] == x;
        rows.lemma_filter_pred(p, i);
    }
    if rows.contains(x) && p(x) {
        let i = choose|i: int| 0 <= i < rows.len() && rows[i] == x;
        rows.lemma_filter_contains(p, i);
    }
}

/// A group's count is its number of rows, its sum adds the column over its rows (the sum
/// over rows `a` followed by rows `b` is the sum over `a` plus the sum over `b`, and over
/// one row it is that row's value), and its average times its count falls short of its
/// sum by less than one count, toward zero: the average is the sum divided by the number
/// of rows, rounded toward zero.
pub proof fn lemma_aggregates_relate(d: SpecDataset, c: String)
    requires
        aggregation_defined(d, Aggregation::Average(c)),
    ensures
        ({
            let n = aggregate_of(d, Aggregation::Count(c)) as int;
            let s = aggregate_of(d, Aggregation::Sum(c)) as int;
            let a = aggregate_of(d, Aggregation::Average(c)) as int;
            &&& n == d.rows.len()
            &&& s >= 0 ==> 0 <= s - n * a < n
            &&& s < 0 ==> -n < s - n * a <= 0
        }),
{
    let n = d.rows.len() as int;
    let pos = column_position(d.columns, c@);
    let s = column_sum(d.rows, pos);
    assert(d.rows.take(n) =~= d.rows);
    assert(i32::MIN <= column_sum(d.rows.take(n), pos) <= i32::MAX);
    assert(aggregate_of(d, Aggregation::Sum(c)) as int == s);
    assert(aggregate_of(d, Aggregation::Count(c)) as int == n);
    if s >= 0 {
        vstd::arithmetic::div_mod::lemma_fundamental_div_mod(s, n);
        vstd::arithmetic::div_mod::lemma_mod_pos_bound(s, n);
        vstd::arithmetic::div_mod::lemma_div_nonincreasing(s, n);
        vstd::arithmetic::div_mod::lemma_div_pos_is_pos(s, n);
        assert(div_toward_zero(s, n) == s / n);
        assert(aggregate_of(d, Aggregation::Average(c)) as int == s / n);
        assert(s - n * (s / n) == s % n);
    } else {
        vstd::arithmetic::div_mod::lemma_fundamental_div_mod(-s, n);
        vstd::arithmetic::div_mod::lemma_mod_pos_bound(-s, n);
        vstd::arithmetic::div_mod::lemma_div_nonincreasing(-s, n);
        vstd::arithmetic::div_mod::lemma_div_pos_is_pos(-s, n);
        assert(div_toward_zero(s, n) == -((-s) / n));
        assert(aggregate_of(d, Aggregation::Average(c)) as int == -((-s) / n));
        assert(s - n * (-((-s) / n)) == -((-s) % n)) by (nonlinear_arith)
            requires
                -s == n * ((-s) / n) + (-s) % n,
        ;
    }
}

/// Summing a column is additive over rows: over `a` followed by `b` it is the sum over `a`
/// plus the sum over `b`, and over a single row it is that row's integer.
pub proof fn lemma_sum_additive(a: Seq<Seq<SpecValue>>, b: Seq<Seq<SpecValue>>, pos: int, row: Seq<SpecValue>)
    ensures
        column_sum(a + b, pos) == column_sum(a, pos) + column_sum(b, pos),
        column_sum(seq![row], pos) == int_of(row[pos]),
    decreases b.len(),
{
    if b.len() == 0 {
        assert(a + b =~= a);
    } else {
        lemma_sum_additive(a, b.drop_last(), pos, row);
        assert((a + b).drop_last() =~= a + b.drop_last());
        assert((a + b).last() == b.last());
    }
    assert(seq![row].drop_last() =~= Seq::<Seq<SpecValue>>::empty());
    assert(column_sum(seq![row].drop_last(), pos) == 0);
    assert(seq![row].last() == row);
}

} // verus!

//! Queries: a row filter, a grouping column and an aggregation.

use vstd::prelude::*;
use vstd::string::StringExecFns;
use crate::dataset::{ColumnType, SpecValue, Value, column_position, has_column};

verus! {

/// A predicate on the rows of a dataset.
#[derive(Debug)]
pub enum Condition {
    /// The value in the named column equals the given value.
    Equal(String, Value),
    /// The inner condition does not hold.
    Not(Box<Condition>),
    /// Both conditions hold.
    And(Box<Condition>, Box<Condition>),
    /// At least one of the conditions holds.
    Or(Box<Condition>, Box<Condition>),
}

/// Whether `row` satisfies `c`, with columns looked up in `columns`.
pub open spec fn condition_holds(
    row: Seq<SpecValue>,
    columns: Seq<(Seq<char>, ColumnType)>,
    c: Condition,
) -> bool
    decreases c,
{
    match c {
        Condition::Equal(name, v) => row[column_position(columns, name@)] == v@,
        Condition::Not(inner) => !condition_holds(row, columns, *inner),
        Condition::And(l, r) => condition_holds(row, columns, *l) && condition_holds(row, columns, *r),
        Condition::Or(l, r) => condition_holds(row, columns, *l) || condition_holds(row, columns, *r),
    }
}

/// Evaluating `c` on `row` (left to right, with `And` and `Or` short-circuiting) only
/// looks up columns that exist and positions that the row has.
pub open spec fn condition_evaluates(
    row: Seq<SpecValue>,
    columns: Seq<(Seq<char>, ColumnType)>,
    c: Condition,
) -> bool
    decreases c,
{
    match c {
        Condition::Equal(name, v) => has_column(columns, name@) && column_position(columns, name@)
            < row.len(),
        Condition::Not(inner) => condition_evaluates(row, columns, *inner),
        Condition::And(l, r) => condition_evaluates(row, columns, *l) && (condition_holds(
            row,
            columns,
            *l,
        ) ==> condition_evaluates(row, columns, *r)),
        Condition::Or(l, r) => condition_evaluates(row, columns, *l) && (!condition_holds(
            row,
            columns,
            *l,
        ) ==> condition_evaluates(row, columns, *r)),
    }
}

/// How the rows of each group are combined into one integer.
#[derive(Debug)]
pub enum Aggregation {
    /// The number of rows.
    Count(String),
    /// The sum of the named integer column.
    Sum(String),
    /// The average (rounded toward zero) of the named integer column.
    Average(String),
}

/// The name of the column that an aggregation writes.
pub open spec fn result_column_name(a: Aggregation) -> Seq<char> {
    match a {
        Aggregation::Count(c) => "Count("@ + c@ + ")"@,
        Aggregation::Sum(c) => "Sum("@ + c@ + ")"@,
        Aggregation::Average(c) => "Average("@ + c@ + ")"@,
    }
}

impl Aggregation {
    /// The column the aggregation reads.
    pub fn get_column_name(&self) -> (r: &String)
        ensures
            r@ == match *self {
                Aggregation::Count(c) => c@,
                Aggregation::Sum(c) => c@,
                Aggregation::Average(c) => c@,
            },
    {
        match self {
            Aggregation::Count(c) => c,
            Aggregation::Sum(c) => c,
            Aggregation::Average(c) => c,
        }
    }

    /// The name of the column holding the aggregated values, such as `Count(grade)`.
    pub fn get_result_column_name(&self) -> (r: String)
        ensures
            r@ == result_column_name(*self),
    {
        let (prefix, column) = match self {
            Aggregation::Count(c) => ("Count(", c),
            Aggregation::Sum(c) => ("Sum(", c),
            Aggregation::Average(c) => ("Average(", c),
        };
        let mut r = String::from_str(prefix);
        r.append(column.as_str());
        r.append(")");
        r
    }
}

/// A query: keep the rows that satisfy `filter`, group them by the `group_by` column and
/// aggregate each group with `aggregate`.
#[derive(Debug)]
pub struct Query {
    filter: Condition,
    group_by: String,
    aggregate: Aggregation,
}

impl Query {
    /// A query from its three parts.
    pub fn new(filter: Condition, group_by: String, aggregate: Aggregation) -> (q: Query)
        ensures
            q.filter() == filter,
            q.group_by() == group_by,
            q.aggregate() == aggregate,
    {
        Query { filter, group_by, aggregate }
    }

    /// The filter of the query.
    pub closed spec fn filter(self) -> Condition {
        self.filter
    }

    /// The grouping column of the query.
    pub closed spec fn group_by(self) -> String {
        self.group_by
    }

    /// The aggregation of the query.
    pub closed spec fn aggregate(self) -> Aggregation {
        self.aggregate
    }

    /// The filter of the query.
    pub fn get_filter(&self) -> (r: &Condition)
        ensures
            *r == self.filter(),
    {
        &self.filter
    }

    /// The grouping column of the query.
    pub fn get_group_by(&self) -> (r: &String)
        ensures
            *r == self.group_by(),
    {
        &self.group_by
    }

    /// The aggregation of the query.
    pub fn get_aggregate(&self) -> (r: &Aggregation)
        ensures
            *r == self.aggregate(),
    {
        &self.aggregate
    }
}

} // verus!

//! The dataset model: typed columns, values, rows and the table that holds them.

use vstd::prelude::*;
use crate::text::{append_padded, i32_text, int_text, padded};
use vstd::string::StringExecFns;
use vstd::std_specs::iter::IteratorSpec;
use vstd::multiset::Multiset;
use vstd::seq_lib::lemma_multiset_commutative;

verus! {

/// The type of data a column stores.
#[derive(Clone, Copy, PartialEq, Eq, Structural, Debug)]
pub enum ColumnType {
    String,
    Integer,
}

/// One cell of a dataset.
#[derive(Debug, Hash, PartialOrd, Ord)]
pub enum Value {
    String(String),
    Integer(i32),
}

/// The mathematical content of a [`Value`].
pub enum SpecValue {
    Str(Seq<char>),
    Int(i32),
}

impl View for Value {
    type V = SpecValue;

    open spec fn view(&self) -> SpecValue {
        match self {
            Value::String(s) => SpecValue::Str(s@),
            Value::Integer(i) => SpecValue::Int(*i),
        }
    }
}

impl PartialEq for Value {
    fn eq(&self, other: &Value) -> (r: bool) {
        match (self, other) {
            (Value::String(a), Value::String(b)) => {
                let same = a.eq(b);
                proof {
                    if same {
                        assert(self@ == other@);
                    }
                }
                same
            },
            (Value::Integer(a), Value::Integer(b)) => *a == *b,
            _ => false,
        }
    }
}

impl vstd::std_specs::cmp::PartialEqSpecImpl for Value {
    open spec fn obeys_eq_spec() -> bool {
        true
    }

    open spec fn eq_spec(&self, other: &Value) -> bool {
        self@ == other@
    }
}

impl Eq for Value {}

impl Clone for Value {
    fn clone(&self) -> (r: Value)
        ensures
            r@ == self@,
    {
        match self {
            Value::String(s) => Value::String(s.clone()),
            Value::Integer(i) => Value::Integer(*i),
        }
    }
}

/// The text of a value: a string as it is, an integer in decimal.
pub open spec fn value_text(v: SpecValue) -> Seq<char> {
    match v {
        SpecValue::Str(s) => s,
        SpecValue::Int(i) => int_text(i as int),
    }
}

impl Value {
    /// The text of this value, as it is printed in a dataset.
    pub fn to_string(&self) -> (s: String)
        ensures
            s@ == value_text(self@),
    {
        match self {
            Value::String(value) => value.clone(),
            Value::Integer(value) => i32_text(*value),
        }
    }
}


/// The values of a sequence of cells.
pub open spec fn values_view(values: Seq<Value>) -> Seq<SpecValue> {
    values.map_values(|v: Value| v@)
}

/// One row of a dataset.
#[derive(PartialOrd, Ord)]
pub struct Row {
    values: Vec<Value>,
}

impl View for Row {
    type V = Seq<SpecValue>;

    closed spec fn view(&self) -> Seq<SpecValue> {
        values_view(self.values@)
    }
}

impl PartialEq for Row {
    fn eq(&self, other: &Row) -> (r: bool) {
        let n = self.values.len();
        if n != other.values.len() {
            proof {
                assert(self@.len() != other@.len());
            }
            return false;
        }
        let mut i: usize = 0;
        while i < n
            invariant
                n == self.values.len(),
                n == other.values.len(),
                i <= n,
                forall|j: int| 0 <= j < i ==> self@[j] == other@[j],
            decreases n - i,
        {
            if self.values[i] != other.values[i] {
                proof {
                    assert(self@[i as int] != other@[i as int]);
                }
                return false;
            }
            i += 1;
        }
        proof {
            assert(self@ =~= other@);
        }
        true
    }
}

impl vstd::std_specs::cmp::PartialEqSpecImpl for Row {
    open spec fn obeys_eq_spec() -> bool {
        true
    }

    open spec fn eq_spec(&self, other: &Row) -> bool {
        self@ == other@
    }
}

impl Eq for Row {}

/// A copy of a sequence of values.
fn copy_values(values: &Vec<Value>) -> (r: Vec<Value>)
    ensures
        values_view(r@) == values_view(values@),
{
    let mut r: Vec<Value> = Vec::new();
    let n = values.len();
    for i in 0..n
        invariant
            n == values.len(),
            r@.len() == i,
            forall|j: int| 0 <= j < i ==> r@[j]@ == values@[j]@,
    {
        r.push(values[i].clone());
    }
    proof {
        assert(values_view(r@) =~= values_view(values@));
    }
    r
}

impl Clone for Row {
    fn clone(&self) -> (r: Row)
        ensures
            r@ == self@,
    {
        Row { values: copy_values(&self.values) }
    }
}

impl Row {
    /// A row holding `values`, in order.
    pub fn new(values: Vec<Value>) -> (r: Row)
        ensures
            r@ == values_view(values@),
    {
        return Row { values };
    }

    /// All values of the row, in order.
    pub fn get_values(&self) -> (r: &Vec<Value>)
        ensures
            values_view(r@) == self@,
    {
        return &self.values;
    }

    /// The value at `index`.
    pub fn get_value(&self, index: usize) -> (r: &Value)
        requires
            index < self@.len(),
        ensures
            r@ == self@[index as int],
    {
        return &self.values[index];
    }

    /// The values of the row, taken out of it.
    pub fn move_values(self) -> (r: Vec<Value>)
        ensures
            values_view(r@) == self@,
    {
        return self.values;
    }
}

/// The mathematical content of a column header: its name and type.
pub open spec fn column_view(c: (String, ColumnType)) -> (Seq<char>, ColumnType) {
    (c.0@, c.1)
}

/// The mathematical content of a [`Dataset`].
pub struct SpecDataset {
    pub columns: Seq<(Seq<char>, ColumnType)>,
    pub rows: Seq<Seq<SpecValue>>,
}

/// A table: named, typed columns and the rows of data under them.
pub struct Dataset {
    columns: Vec<(String, ColumnType)>,
    rows: Vec<Row>,
}

impl View for Dataset {
    type V = SpecDataset;

    closed spec fn view(&self) -> SpecDataset {
        SpecDataset {
            columns: self.columns@.map_values(|c: (String, ColumnType)| column_view(c)),
            rows: self.rows@.map_values(|r: Row| r@),
        }
    }
}

/// `i` is the first position of a column named `name`.
pub open spec fn is_first_column(
    columns: Seq<(Seq<char>, ColumnType)>,
    name: Seq<char>,
    i: int,
) -> bool {
    &&& 0 <= i < columns.len()
    &&& columns[i].0 == name
    &&& forall|j: int| 0 <= j < i ==> columns[j].0 != name
}

/// Some column is named `name`.
pub open spec fn has_column(columns: Seq<(Seq<char>, ColumnType)>, name: Seq<char>) -> bool {
    exists|i: int| 0 <= i < columns.len() && columns[i].0 == name
}

/// The position of the first column named `name` (meaningful when [`has_column`] holds).
pub open spec fn column_position(columns: Seq<(Seq<char>, ColumnType)>, name: Seq<char>) -> int {
    choose|i: int| is_first_column(columns, name, i)
}

/// Where some column is named `name`, [`column_position`] is the first such column.
pub proof fn lemma_column_position(columns: Seq<(Seq<char>, ColumnType)>, name: Seq<char>)
    requires
        has_column(columns, name),
    ensures
        is_first_column(columns, name, column_position(columns, name)),
{
    let k = choose|i: int| 0 <= i < columns.len() && columns[i].0 == name;
    lemma_first_below(columns, name, k);
}

proof fn lemma_first_below(columns: Seq<(Seq<char>, ColumnType)>, name: Seq<char>, k: int)
    requires
        0 <= k < columns.len(),
        columns[k].0 == name,
    ensures
        exists|i: int| is_first_column(columns, name, i),
    decreases k,
{
    if exists|j: int| 0 <= j < k && columns[j].0 == name {
        let j = choose|j: int| 0 <= j < k && columns[j].0 == name;
        lemma_first_below(columns, name, j);
    } else {
        assert(is_first_column(columns, name, k));
    }
}

/// A copy of a list of column headers.
pub(crate) fn copy_columns(columns: &Vec<(String, ColumnType)>) -> (r: Vec<(String, ColumnType)>)
    ensures
        r@.map_values(|c: (String, ColumnType)| column_view(c))
            == columns@.map_values(|c: (String, ColumnType)| column_view(c)),
{
    let mut r: Vec<(String, ColumnType)> = Vec::new();
    let n = columns.len();
    for i in 0..n
        invariant
            n == columns.len(),
            r@.len() == i,
            forall|j: int| 0 <= j < i ==> column_view(#[trigger] r@[j]) == column_view(columns@[j]),
    {
        let (name, t) = &columns[i];
        r.push((name.clone(), *t));
    }
    proof {
        assert(r@.map_values(|c: (String, ColumnType)| column_view(c))
            =~= columns@.map_values(|c: (String, ColumnType)| column_view(c)));
    }
    r
}

impl Dataset {
    /// An empty dataset with the given columns.
    pub fn new(columns: Vec<(String, ColumnType)>) -> (d: Dataset)
        ensures
            d@.columns == columns@.map_values(|c: (String, ColumnType)| column_view(c)),
            d@.rows == Seq::<Seq<SpecValue>>::empty(),
    {
        let d = Dataset { columns, rows: Vec::new() };
        proof {
            assert(d@.rows =~= Seq::<Seq<SpecValue>>::empty());
        }
        return d;
    }

    /// Appends `row` after the existing rows.
    pub fn add_row(&mut self, row: Row)
        ensures
            final(self)@.columns == old(self)@.columns,
            final(self)@.rows == old(self)@.rows.push(row@),
    {
        self.rows.push(row);
        proof {
            assert(self@.rows =~= old(self)@.rows.push(row@));
        }
    }

    /// The column headers, in order.
    pub fn columns(&self) -> (r: &Vec<(String, ColumnType)>)
        ensures
            r@.map_values(|c: (String, ColumnType)| column_view(c)) == self@.columns,
    {
        return &self.columns;
    }

    /// The type of the first column named `column_name`.
    pub fn column_type(&self, column_name: &String) -> (t: &ColumnType)
        requires
            has_column(self@.columns, column_name@),
        ensures
            *t == self@.columns[column_position(self@.columns, column_name@)].1,
    {
        let i = self.column_index(column_name);
        return &self.columns[i].1;
    }

    /// The position of the first column named `column_name`, if there is one.
    pub fn find_column(&self, column_name: &String) -> (r: Option<usize>)
        ensures
            r is Some <==> has_column(self@.columns, column_name@),
            r matches Some(i) ==> i == column_position(self@.columns, column_name@),
    {
        let n = self.columns.len();
        for i in 0..n
            invariant
                n == self.columns@.len(),
                forall|j: int| 0 <= j < i ==> self@.columns[j].0 != column_name@,
        {
            let (cname, _ctype) = &self.columns[i];
            if cname.eq(column_name) {
                proof {
                    assert(self@.columns[i as int].0 == column_name@);
                    lemma_column_position(self@.columns, column_name@);
                }
                return Some(i);
            }
        }
        None
    }

    /// The position of the first column named `column_name`.
    pub fn column_index(&self, column_name: &String) -> (i: usize)
        requires
            has_column(self@.columns, column_name@),
        ensures
            i == column_position(self@.columns, column_name@),
            is_first_column(self@.columns, column_name@, i as int),
    {
        proof {
            lemma_column_position(self@.columns, column_name@);
        }
        let n = self.columns.len();
        for i in 0..n
            invariant
                n == self.columns.len(),
                has_column(self@.columns, column_name@),
                is_first_column(self@.columns, column_name@, column_position(self@.columns, column_name@)),
                forall|j: int| 0 <= j < i ==> self@.columns[j].0 != column_name@,
        {
            let (cname, _ctype) = &self.columns[i];
            if cname.eq(column_name) {
                proof {
                    assert(self@.columns[i as int].0 == column_name@);
                }
                return i;
            }
        }
        proof {
            let k = column_position(self@.columns, column_name@);
            assert(self@.columns[k].0 == column_name@);
        }
        0
    }

    /// An iterator over the rows, in order.
    pub fn iter(&self) -> (it: std::slice::Iter<'_, Row>)
        ensures
            IteratorSpec::remaining(&it).unref().map_values(|r: Row| r@) == self@.rows,
    {
        broadcast use vstd::std_specs::slice::axiom_spec_slice_iter;
        return self.rows.iter();
    }

    /// The rows, taken out of the dataset, in order.
    pub fn into_iter(self) -> (it: std::vec::IntoIter<Row>)
        ensures
            IteratorSpec::remaining(&it).map_values(|r: Row| r@) == self@.rows,
    {
        broadcast use vstd::std_specs::vec::axiom_spec_into_iter;
        return self.rows.into_iter();
    }

    /// The row at `index`.
    pub fn row(&self, index: usize) -> (r: &Row)
        requires
            index < self@.rows.len(),
        ensures
            r@ == self@.rows[index as int],
    {
        &self.rows[index]
    }

    /// The number of rows.
    pub fn len(&self) -> (n: usize)
        ensures
            n == self@.rows.len(),
    {
        return self.rows.len();
    }
}


/// A dataset after appending `rows` one by one, as successive calls of
/// [`Dataset::add_row`] do.
pub open spec fn after_appends(d: SpecDataset, rows: Seq<Seq<SpecValue>>) -> SpecDataset
    decreases rows.len(),
{
    if rows.len() == 0 {
        d
    } else {
        let prev = after_appends(d, rows.drop_last());
        SpecDataset { columns: prev.columns, rows: prev.rows.push(rows.last()) }
    }
}

/// Appending rows one by one to an empty dataset gives a dataset whose rows are exactly
/// those rows, in the order they were appended: its length is their number and iterating
/// over it yields them in that order.
pub proof fn lemma_appends_in_order(columns: Seq<(Seq<char>, ColumnType)>, rows: Seq<Seq<SpecValue>>)
    ensures
        after_appends(SpecDataset { columns, rows: Seq::empty() }, rows) == (SpecDataset { columns, rows }),
        after_appends(SpecDataset { columns, rows: Seq::empty() }, rows).rows.len() == rows.len(),
    decreases rows.len(),
{
    if rows.len() > 0 {
        lemma_appends_in_order(columns, rows.drop_last());
        assert(rows.drop_last().push(rows.last()) =~= rows);
    } else {
        assert(rows =~= Seq::<Seq<SpecValue>>::empty());
    }
}

/// The rows of two datasets are the same up to their order.
pub open spec fn same_rows(a: Seq<Seq<SpecValue>>, b: Seq<Seq<SpecValue>>) -> bool {
    a.to_multiset() == b.to_multiset()
}

/// A copy of a list of rows.
fn copy_rows(rows: &Vec<Row>) -> (r: Vec<Row>)
    ensures
        r@.map_values(|x: Row| x@) == rows@.map_values(|x: Row| x@),
{
    let mut r: Vec<Row> = Vec::new();
    let n = rows.len();
    for i in 0..n
        invariant
            n == rows.len(),
            r@.len() == i,
            forall|j: int| 0 <= j < i ==> (#[trigger] r@[j])@ == rows@[j]@,
    {
        r.push(rows[i].clone());
    }
    proof {
        assert(r@.map_values(|x: Row| x@) =~= rows@.map_values(|x: Row| x@));
    }
    r
}

impl Clone for Dataset {
    fn clone(&self) -> (d: Dataset)
        ensures
            d@ == self@,
    {
        Dataset { columns: copy_columns(&self.columns), rows: copy_rows(&self.rows) }
    }
}

fn same_columns(a: &Vec<(String, ColumnType)>, b: &Vec<(String, ColumnType)>) -> (r: bool)
    ensures
        r == (a@.map_values(|c: (String, ColumnType)| column_view(c)) == b@.map_values(
            |c: (String, ColumnType)| column_view(c),
        )),
{
    let ghost va = a@.map_values(|c: (String, ColumnType)| column_view(c));
    let ghost vb = b@.map_values(|c: (String, ColumnType)| column_view(c));
    let n = a.len();
    if n != b.len() {
        assert(va.len() != vb.len());
        return false;
    }
    for i in 0..n
        invariant
            n == a@.len(),
            n == b@.len(),
            va == a@.map_values(|c: (String, ColumnType)| column_view(c)),
            vb == b@.map_values(|c: (String, ColumnType)| column_view(c)),
            forall|j: int| 0 <= j < i ==> va[j] == vb[j],
    {
        let (na, ta) = &a[i];
        let (nb, tb) = &b[i];
        if !na.eq(nb) || *ta != *tb {
            assert(va[i as int] != vb[i as int]);
            return false;
        }
    }
    assert(va =~= vb);
    true
}

/// Whether the rows `a` and `b` are the same up to their order.
fn same_row_multiset(a: &Vec<Row>, b: &Vec<Row>) -> (r: bool)
    ensures
        r == same_rows(a@.map_values(|x: Row| x@), b@.map_values(|x: Row| x@)),
{
    broadcast use vstd::seq_lib::group_to_multiset_ensures, vstd::multiset::group_multiset_axioms;
    let ghost va = a@.map_values(|x: Row| x@);
    let ghost vb = b@.map_values(|x: Row| x@);
    let mut remaining = copy_rows(b);
    let n = a.len();
    for i in 0..n
        invariant
            n == a@.len(),
            va == a@.map_values(|x: Row| x@),
            vb == b@.map_values(|x: Row| x@),
            vb.to_multiset() == remaining@.map_values(|x: Row| x@).to_multiset().add(
                va.take(i as int).to_multiset(),
            ),
    {
        let ghost rv = remaining@.map_values(|x: Row| x@);
        let m = remaining.len();
        let mut j: usize = 0;
        while j < m
            invariant
                m == remaining@.len(),
                rv == remaining@.map_values(|x: Row| x@),
                i < n,
                n == a@.len(),
                va == a@.map_values(|x: Row| x@),
                j <= m,
                forall|k: int| 0 <= k < j ==> rv[k] != va[i as int],
            ensures
                j <= m,
                j < m ==> rv[j as int] == va[i as int],
                forall|k: int| 0 <= k < j ==> rv[k] != va[i as int],
            decreases m - j,
        {
            if remaining[j] == a[i] {
                break;
            }
            j += 1;
        }
        let ghost x = va[i as int];
        assert(va.take(i + 1) =~= va.take(i as int).push(x));
        if j == m {
            proof {
                assert(!rv.contains(x));
                vstd::seq_lib::to_multiset_contains(rv, x);
                assert(rv.to_multiset().count(x) == 0);
                vstd::seq_lib::to_multiset_build(va.take(i as int), x);
                lemma_multiset_commutative(va.take(i + 1), va.skip(i + 1));
                assert(va.take(i + 1) + va.skip(i + 1) =~= va);
                assert(va.to_multiset().count(x) >= va.take(i as int).to_multiset().count(x) + 1);
                assert(vb.to_multiset().count(x) == va.take(i as int).to_multiset().count(x));
            }
            return false;
        }
        remaining.remove(j);
        proof {
            let rv2 = remaining@.map_values(|x: Row| x@);
            assert(rv2 =~= rv.remove(j as int));
            assert(rv.to_multiset().count(x) > 0) by {
                assert(rv[j as int] == x);
                assert(rv.contains(x));
                vstd::seq_lib::to_multiset_contains(rv, x);
            }
            vstd::seq_lib::to_multiset_remove(rv, j as int);
            vstd::seq_lib::to_multiset_build(va.take(i as int), x);
            assert(vb.to_multiset() =~= rv2.to_multiset().add(va.take(i + 1).to_multiset()));
        }
    }
    assert(va.take(n as int) =~= va);
    let empty = remaining.len() == 0;
    proof {
        let rv = remaining@.map_values(|x: Row| x@);
        if empty {
            assert(rv =~= Seq::<Seq<SpecValue>>::empty());
            assert(rv.to_multiset() =~= Multiset::<Seq<SpecValue>>::empty());
            assert(vb.to_multiset() =~= va.to_multiset());
        } else {
            assert(vb.to_multiset().len() == rv.to_multiset().len() + va.to_multiset().len());
            assert(vb.len() > va.len());
        }
    }
    empty
}

impl PartialEq for Dataset {
    fn eq(&self, other: &Dataset) -> (r: bool) {
        if !same_columns(&self.columns, &other.columns) {
            return false;
        }
        same_row_multiset(&self.rows, &other.rows)
    }
}

impl vstd::std_specs::cmp::PartialEqSpecImpl for Dataset {
    open spec fn obeys_eq_spec() -> bool {
        true
    }

    open spec fn eq_spec(&self, other: &Dataset) -> bool {
        self@.columns == other@.columns && same_rows(self@.rows, other@.rows)
    }
}


/// The name of a column type as it is printed.
pub open spec fn column_type_text(t: ColumnType) -> Seq<char> {
    match t {
        ColumnType::String => "String"@,
        ColumnType::Integer => "Integer"@,
    }
}

/// The width of a printed cell.
pub const CELL_WIDTH: usize = 28;

/// One printed cell: a space, the text padded to the cell width, and a bar.
pub open spec fn cell_text(text: Seq<char>) -> Seq<char> {
    " "@ + padded(text, CELL_WIDTH as nat) + "|"@
}

/// The printed headers of `columns`: each name with its type.
pub open spec fn header_text(columns: Seq<(Seq<char>, ColumnType)>) -> Seq<char>
    decreases columns.len(),
{
    if columns.len() == 0 {
        Seq::empty()
    } else {
        header_text(columns.drop_last()) + cell_text(columns.last().0 + ": "@ + column_type_text(columns.last().1))
    }
}

/// The rule under `k` headers.
pub open spec fn rule_text(k: nat) -> Seq<char>
    decreases k,
{
    if k == 0 {
        Seq::empty()
    } else {
        rule_text((k - 1) as nat) + "=============================|"@
    }
}

/// The printed cells of one row.
pub open spec fn values_text(values: Seq<SpecValue>) -> Seq<char>
    decreases values.len(),
{
    if values.len() == 0 {
        Seq::empty()
    } else {
        values_text(values.drop_last()) + cell_text(value_text(values.last()))
    }
}

/// The printed lines of `rows`.
pub open spec fn rows_text(rows: Seq<Seq<SpecValue>>) -> Seq<char>
    decreases rows.len(),
{
    if rows.len() == 0 {
        Seq::empty()
    } else {
        rows_text(rows.drop_last()) + "|"@ + values_text(rows.last()) + "\n"@
    }
}

/// The printed form of a dataset: a title line, the headers, a rule, then one line per row.
pub open spec fn dataset_text(d: SpecDataset) -> Seq<char> {
    "Dataset:\n"@ + "|"@ + header_text(d.columns) + "\n"@ + "|"@ + rule_text(d.columns.len()) + "\n"@
        + rows_text(d.rows)
}

fn append_cell(out: &mut String, text: &str)
    ensures
        final(out)@ == old(out)@ + cell_text(text@),
{
    out.append(" ");
    append_padded(out, text, CELL_WIDTH);
    out.append("|");
    assert(out@ =~= old(out)@ + cell_text(text@));
}

impl Dataset {
    /// The dataset as a table of text: a title line, the headers, a rule, then one
    /// line per row, each cell padded to the same width.
    pub fn to_string(&self) -> (s: String)
        ensures
            s@ == dataset_text(self@),
    {
        let ghost d = self@;
        let mut out = String::from_str("Dataset:\n");
        out.append("|");
        let ghost start = out@;
        let ncols = self.columns.len();
        for i in 0..ncols
            invariant
                ncols == self.columns@.len(),
                d == self@,
                out@ == start + header_text(d.columns.take(i as int)),
        {
            let (colname, coltype) = &self.columns[i];
            let mut description = colname.clone();
            description.append(": ");
            match coltype {
                ColumnType::String => description.append("String"),
                ColumnType::Integer => description.append("Integer"),
            }
            append_cell(&mut out, description.as_str());
            proof {
                assert(d.columns.take(i + 1).drop_last() =~= d.columns.take(i as int));
                assert(description@ == d.columns[i as int].0 + ": "@ + column_type_text(d.columns[i as int].1));
            }
        }
        assert(d.columns.take(ncols as int) =~= d.columns);
        out.append("\n");
        out.append("|");
        let ghost start2 = out@;
        for i in 0..ncols
            invariant
                out@ == start2 + rule_text(i as nat),
        {
            out.append("=============================|");
        }
        out.append("\n");
        let ghost start3 = out@;
        assert(start3 == "Dataset:\n"@ + "|"@ + header_text(d.columns) + "\n"@ + "|"@ + rule_text(
            d.columns.len(),
        ) + "\n"@);
        let nrows = self.rows.len();
        for r in 0..nrows
            invariant
                nrows == self.rows@.len(),
                d == self@,
                out@ == start3 + rows_text(d.rows.take(r as int)),
        {
            let row = &self.rows[r];
            let ghost line_start = out@;
            out.append("|");
            let nvals = row.values.len();
            for k in 0..nvals
                invariant
                    nvals == row.values@.len(),
                    out@ == line_start + "|"@ + values_text(row@.take(k as int)),
            {
                let text = row.values[k].to_string();
                append_cell(&mut out, text.as_str());
                proof {
                    assert(row@.take(k + 1).drop_last() =~= row@.take(k as int));
                }
            }
            assert(row@.take(nvals as int) =~= row@);
            out.append("\n");
            proof {
                assert(d.rows.take(r + 1).drop_last() =~= d.rows.take(r as int));
                assert(d.rows[r as int] == row@);
            }
        }
        assert(d.rows.take(nrows as int) =~= d.rows);
        out
    }
}

} // verus!

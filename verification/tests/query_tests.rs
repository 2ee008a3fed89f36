use analytics_lib::dataset::{ColumnType, Dataset, Row, Value};
use analytics_lib::query::{Aggregation, Condition, Query};
use analytics_lib::solution::{
    aggregate_dataset, checked_compute_query, compute_query_on_dataset, filter_dataset, group_by_dataset,
    query_can_run, row_matches,
};

fn s(text: &str) -> Value {
    Value::String(text.to_string())
}

fn eq(col: &str, v: Value) -> Condition {
    Condition::Equal(col.to_string(), v)
}

fn grades() -> Dataset {
    let mut d = Dataset::new(vec![
        ("name".to_string(), ColumnType::String),
        ("section".to_string(), ColumnType::String),
        ("grade".to_string(), ColumnType::Integer),
    ]);
    d.add_row(Row::new(vec![s("Alice"), s("A"), Value::Integer(90)]));
    d.add_row(Row::new(vec![s("Bob"), s("B"), Value::Integer(75)]));
    d.add_row(Row::new(vec![s("Carol"), s("A"), Value::Integer(82)]));
    d.add_row(Row::new(vec![s("Dan"), s("B"), Value::Integer(60)]));
    d.add_row(Row::new(vec![s("Eve"), s("C"), Value::Integer(-7)]));
    d
}

fn names(d: &Dataset) -> Vec<String> {
    d.iter().map(|r| r.get_value(0).to_string()).collect()
}

#[test]
fn result_column_names() {
    assert_eq!(Aggregation::Count("grade".to_string()).get_result_column_name(), "Count(grade)");
    assert_eq!(Aggregation::Sum("grade".to_string()).get_result_column_name(), "Sum(grade)");
    assert_eq!(Aggregation::Average("g".to_string()).get_result_column_name(), "Average(g)");
    assert_eq!(Aggregation::Sum("grade".to_string()).get_column_name(), "grade");
}

#[test]
fn query_parts_are_kept() {
    let q = Query::new(eq("section", s("A")), "section".to_string(), Aggregation::Count("name".to_string()));
    assert_eq!(q.get_group_by(), "section");
    assert!(matches!(q.get_filter(), Condition::Equal(c, _) if c == "section"));
    assert!(matches!(q.get_aggregate(), Aggregation::Count(c) if c == "name"));
}

#[test]
fn row_matches_each_kind_of_condition() {
    let d = grades();
    let alice = Row::new(vec![s("Alice"), s("A"), Value::Integer(90)]);
    assert!(row_matches(&alice, &d, &eq("section", s("A"))));
    assert!(!row_matches(&alice, &d, &eq("section", s("B"))));
    assert!(!row_matches(&alice, &d, &eq("grade", s("90"))));
    assert!(row_matches(&alice, &d, &eq("grade", Value::Integer(90))));
    assert!(!row_matches(&alice, &d, &Condition::Not(Box::new(eq("section", s("A"))))));
    let both = Condition::And(Box::new(eq("section", s("A"))), Box::new(eq("grade", Value::Integer(82))));
    assert!(!row_matches(&alice, &d, &both));
    let either = Condition::Or(Box::new(eq("section", s("B"))), Box::new(eq("grade", Value::Integer(90))));
    assert!(row_matches(&alice, &d, &either));
}

#[test]
fn and_short_circuits_before_a_missing_column() {
    let d = grades();
    let alice = Row::new(vec![s("Alice"), s("A"), Value::Integer(90)]);
    let c = Condition::And(Box::new(eq("section", s("B"))), Box::new(eq("missing", s("x"))));
    assert!(!row_matches(&alice, &d, &c));
    let o = Condition::Or(Box::new(eq("section", s("A"))), Box::new(eq("missing", s("x"))));
    assert!(row_matches(&alice, &d, &o));
}

#[test]
fn filter_keeps_matching_rows_in_order() {
    let d = grades();
    let f = filter_dataset(&d, &eq("section", s("A")));
    assert_eq!(names(&f), vec!["Alice", "Carol"]);
    assert!(f.columns() == d.columns());
}

#[test]
fn filter_and_its_negation_split_the_rows() {
    let d = grades();
    let c = eq("section", s("B"));
    let yes = filter_dataset(&d, &c);
    let no = filter_dataset(&d, &Condition::Not(Box::new(eq("section", s("B")))));
    assert_eq!(yes.len() + no.len(), d.len());
    assert_eq!(names(&no), vec!["Alice", "Carol", "Eve"]);
}

#[test]
fn filter_by_and_is_filter_then_filter() {
    let d = grades();
    let both = Condition::And(
        Box::new(eq("section", s("A"))),
        Box::new(Condition::Not(Box::new(eq("name", s("Alice"))))),
    );
    let at_once = filter_dataset(&d, &both);
    let first = filter_dataset(&d, &eq("section", s("A")));
    let then = filter_dataset(&first, &Condition::Not(Box::new(eq("name", s("Alice")))));
    assert_eq!(names(&at_once), vec!["Carol"]);
    assert_eq!(names(&at_once), names(&then));
}

#[test]
fn double_negation_keeps_the_same_rows() {
    let d = grades();
    let c = eq("section", s("A"));
    let nn = Condition::Not(Box::new(Condition::Not(Box::new(eq("section", s("A"))))));
    assert!(filter_dataset(&d, &c) == filter_dataset(&d, &nn));
}

#[test]
fn group_by_makes_one_group_per_value() {
    let groups = group_by_dataset(grades(), &"section".to_string());
    assert_eq!(groups.len(), 3);
    let mut total = 0;
    for (key, group) in &groups {
        total += group.len();
        for row in group.iter() {
            assert!(*row.get_value(1) == *key);
        }
        assert!(group.columns() == grades().columns());
    }
    assert_eq!(total, 5);
    let a = groups.iter().find(|(k, _)| *k == s("A")).unwrap();
    assert_eq!(names(&a.1), vec!["Alice", "Carol"]);
    let c = groups.iter().find(|(k, _)| *k == s("C")).unwrap();
    assert_eq!(names(&c.1), vec!["Eve"]);
}

#[test]
fn group_by_of_an_empty_dataset_is_empty() {
    let d = Dataset::new(vec![("x".to_string(), ColumnType::Integer)]);
    assert_eq!(group_by_dataset(d, &"x".to_string()).len(), 0);
}

#[test]
fn aggregate_count_sum_average() {
    let groups = || group_by_dataset(grades(), &"section".to_string());
    let find = |r: &Vec<(Value, Value)>, k: &str| r.iter().find(|(g, _)| *g == s(k)).unwrap().1.clone();

    let counts = aggregate_dataset(groups(), &Aggregation::Count("grade".to_string()));
    assert_eq!(counts.len(), 3);
    assert!(find(&counts, "A") == Value::Integer(2));
    assert!(find(&counts, "C") == Value::Integer(1));

    let sums = aggregate_dataset(groups(), &Aggregation::Sum("grade".to_string()));
    assert!(find(&sums, "A") == Value::Integer(172));
    assert!(find(&sums, "B") == Value::Integer(135));

    let averages = aggregate_dataset(groups(), &Aggregation::Average("grade".to_string()));
    assert!(find(&averages, "A") == Value::Integer(86));
    assert!(find(&averages, "B") == Value::Integer(67));
    assert!(find(&averages, "C") == Value::Integer(-7));
}

#[test]
fn average_rounds_toward_zero() {
    let mut d = Dataset::new(vec![("k".to_string(), ColumnType::String), ("v".to_string(), ColumnType::Integer)]);
    d.add_row(Row::new(vec![s("n"), Value::Integer(-4)]));
    d.add_row(Row::new(vec![s("n"), Value::Integer(-3)]));
    d.add_row(Row::new(vec![s("p"), Value::Integer(4)]));
    d.add_row(Row::new(vec![s("p"), Value::Integer(3)]));
    let r = aggregate_dataset(group_by_dataset(d, &"k".to_string()), &Aggregation::Average("v".to_string()));
    assert!(r[0].0 == s("n") && r[0].1 == Value::Integer(-3));
    assert!(r[1].0 == s("p") && r[1].1 == Value::Integer(3));
}

#[test]
fn count_of_a_group_does_not_read_its_column() {
    let d = Dataset::new(vec![("k".to_string(), ColumnType::String)]);
    let mut d2 = Dataset::new(d.columns().clone());
    d2.add_row(Row::new(vec![s("x")]));
    let r = aggregate_dataset(vec![(s("x"), d2)], &Aggregation::Count("nothing".to_string()));
    assert!(r[0].1 == Value::Integer(1));
}

#[test]
fn compute_query_average_grade_per_section() {
    let d = grades();
    let q = Query::new(
        Condition::Not(Box::new(eq("name", s("Dan")))),
        "section".to_string(),
        Aggregation::Average("grade".to_string()),
    );
    let result = compute_query_on_dataset(&d, &q);
    let mut expected = Dataset::new(vec![
        ("section".to_string(), ColumnType::String),
        ("Average(grade)".to_string(), ColumnType::Integer),
    ]);
    expected.add_row(Row::new(vec![s("C"), Value::Integer(-7)]));
    expected.add_row(Row::new(vec![s("A"), Value::Integer(86)]));
    expected.add_row(Row::new(vec![s("B"), Value::Integer(75)]));
    assert!(result == expected);
}

#[test]
fn compute_query_count_with_nothing_kept() {
    let d = grades();
    let q = Query::new(eq("section", s("Z")), "section".to_string(), Aggregation::Sum("name".to_string()));
    let result = compute_query_on_dataset(&d, &q);
    assert_eq!(result.len(), 0);
    assert_eq!(result.columns()[1].0, "Sum(name)");
    assert_eq!(result.columns()[0].1, ColumnType::String);
}

#[test]
fn compute_query_count_per_section() {
    let q = Query::new(
        Condition::Or(Box::new(eq("section", s("A"))), Box::new(eq("section", s("B")))),
        "section".to_string(),
        Aggregation::Count("name".to_string()),
    );
    let result = compute_query_on_dataset(&grades(), &q);
    let mut expected = Dataset::new(vec![
        ("section".to_string(), ColumnType::String),
        ("Count(name)".to_string(), ColumnType::Integer),
    ]);
    expected.add_row(Row::new(vec![s("B"), Value::Integer(2)]));
    expected.add_row(Row::new(vec![s("A"), Value::Integer(2)]));
    assert!(result == expected);
}

#[test]
fn checked_query_refuses_what_would_panic() {
    let d = grades();
    let missing_filter = Query::new(eq("age", Value::Integer(3)), "section".to_string(), Aggregation::Count("name".to_string()));
    assert!(!query_can_run(&d, &missing_filter));
    assert!(checked_compute_query(&d, &missing_filter).is_none());

    let missing_group = Query::new(eq("section", s("A")), "room".to_string(), Aggregation::Count("name".to_string()));
    assert!(checked_compute_query(&d, &missing_group).is_none());

    let sum_of_names = Query::new(eq("section", s("A")), "section".to_string(), Aggregation::Sum("name".to_string()));
    assert!(checked_compute_query(&d, &sum_of_names).is_none());

    let fine = Query::new(eq("section", s("A")), "section".to_string(), Aggregation::Sum("grade".to_string()));
    let result = checked_compute_query(&d, &fine).unwrap();
    let mut expected = Dataset::new(vec![
        ("section".to_string(), ColumnType::String),
        ("Sum(grade)".to_string(), ColumnType::Integer),
    ]);
    expected.add_row(Row::new(vec![s("A"), Value::Integer(172)]));
    assert!(result == expected);
}

#[test]
fn checked_query_refuses_an_overflowing_sum() {
    let mut d = Dataset::new(vec![("k".to_string(), ColumnType::String), ("v".to_string(), ColumnType::Integer)]);
    d.add_row(Row::new(vec![s("a"), Value::Integer(i32::MAX)]));
    d.add_row(Row::new(vec![s("a"), Value::Integer(1)]));
    d.add_row(Row::new(vec![s("b"), Value::Integer(i32::MAX)]));
    let all = Condition::Not(Box::new(eq("k", s("zzz"))));
    let q = Query::new(all, "k".to_string(), Aggregation::Average("v".to_string()));
    assert!(checked_compute_query(&d, &q).is_none());
    let only_b = Query::new(eq("k", s("b")), "k".to_string(), Aggregation::Sum("v".to_string()));
    let r = checked_compute_query(&d, &only_b).unwrap();
    assert_eq!(r.len(), 1);
    assert!(*r.iter().next().unwrap().get_value(1) == Value::Integer(i32::MAX));
}

#[test]
fn short_circuit_is_respected_by_the_check() {
    let d = grades();
    let guarded = Condition::And(Box::new(eq("section", s("Z"))), Box::new(eq("missing", s("x"))));
    let q = Query::new(guarded, "section".to_string(), Aggregation::Count("name".to_string()));
    assert!(query_can_run(&d, &q));
    assert_eq!(compute_query_on_dataset(&d, &q).len(), 0);
}

#[test]
fn filtering_twice_changes_nothing() {
    let d = grades();
    let c = Condition::Or(Box::new(eq("section", s("A"))), Box::new(eq("grade", Value::Integer(60))));
    let once = filter_dataset(&d, &c);
    let twice = filter_dataset(&once, &c);
    assert!(once == twice);
    assert_eq!(names(&twice), vec!["Alice", "Carol", "Dan"]);
}

#[test]
fn each_group_is_the_equality_filter_of_its_key() {
    let d = grades();
    let groups = group_by_dataset(grades(), &"section".to_string());
    let mut total = 0;
    for (key, group) in &groups {
        let f = filter_dataset(&d, &eq("section", key.clone()));
        assert!(*group == f);
        assert!(group.len() > 0);
        total += group.len();
    }
    assert_eq!(total, d.len());
}

#[test]
fn query_is_filter_then_group_then_aggregate() {
    let d = grades();
    let filter = Condition::Not(Box::new(eq("section", s("C"))));
    let q = Query::new(
        Condition::Not(Box::new(eq("section", s("C")))),
        "section".to_string(),
        Aggregation::Sum("grade".to_string()),
    );
    let result = compute_query_on_dataset(&d, &q);
    let stepwise = aggregate_dataset(
        group_by_dataset(filter_dataset(&d, &filter), &"section".to_string()),
        &Aggregation::Sum("grade".to_string()),
    );
    let mut expected = Dataset::new(result.columns().clone());
    for (k, v) in stepwise {
        expected.add_row(Row::new(vec![k, v]));
    }
    assert!(result == expected);
    assert_eq!(result.len(), 2);
}

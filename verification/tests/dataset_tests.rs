use analytics_lib::dataset::{ColumnType, Dataset, Row, Value};

fn s(text: &str) -> Value {
    Value::String(text.to_string())
}

fn grades() -> Dataset {
    let mut d = Dataset::new(vec![
        ("name".to_string(), ColumnType::String),
        ("section".to_string(), ColumnType::String),
        ("grade".to_string(), ColumnType::Integer),
    ]);
    d.add_row(Row::new(vec![s("Alice"), s("A"), Value::Integer(90)]));
    d.add_row(Row::new(vec![s("Bob"), s("B"), Value::Integer(75)]));
    d.add_row(Row::new(vec![s("Carol"), s("A"), Value::Integer(82)]));
    d
}

#[test]
fn value_to_string_of_integers_and_strings() {
    assert_eq!(Value::Integer(90).to_string(), "90");
    assert_eq!(Value::Integer(0).to_string(), "0");
    assert_eq!(Value::Integer(-7).to_string(), "-7");
    assert_eq!(Value::Integer(i32::MIN).to_string(), "-2147483648");
    assert_eq!(Value::Integer(i32::MAX).to_string(), "2147483647");
    assert_eq!(s("Alice").to_string(), "Alice");
}

#[test]
fn value_equality_and_clone() {
    assert!(s("a") == s("a"));
    assert!(s("a") != s("b"));
    assert!(Value::Integer(1) != s("1"));
    assert!(Value::Integer(3) == Value::Integer(3).clone());
    assert!(s("x") == s("x").clone());
}

#[test]
fn row_accessors_give_back_the_values() {
    let row = Row::new(vec![s("Alice"), Value::Integer(90)]);
    assert_eq!(row.get_values().len(), 2);
    assert!(*row.get_value(0) == s("Alice"));
    assert!(*row.get_value(1) == Value::Integer(90));
    assert!(row.clone() == row);
    let values = row.move_values();
    assert!(values[0] == s("Alice"));
    assert!(values[1] == Value::Integer(90));
}

#[test]
fn dataset_columns_rows_and_lookup() {
    let d = grades();
    assert_eq!(d.len(), 3);
    assert_eq!(d.columns().len(), 3);
    assert_eq!(d.column_index(&"grade".to_string()), 2);
    assert_eq!(*d.column_type(&"grade".to_string()), ColumnType::Integer);
    assert_eq!(*d.column_type(&"name".to_string()), ColumnType::String);
    let names: Vec<String> = d.iter().map(|r| r.get_value(0).to_string()).collect();
    assert_eq!(names, vec!["Alice", "Bob", "Carol"]);
    let rows: Vec<Row> = d.into_iter().collect();
    assert_eq!(rows.len(), 3);
    assert!(*rows[2].get_value(2) == Value::Integer(82));
}

#[test]
fn column_index_finds_the_first_column_of_a_name() {
    let d = Dataset::new(vec![
        ("a".to_string(), ColumnType::Integer),
        ("b".to_string(), ColumnType::String),
        ("a".to_string(), ColumnType::String),
    ]);
    assert_eq!(d.column_index(&"a".to_string()), 0);
    assert_eq!(*d.column_type(&"a".to_string()), ColumnType::Integer);
}

#[test]
fn new_dataset_is_empty_and_add_row_appends() {
    let mut d = Dataset::new(vec![("x".to_string(), ColumnType::Integer)]);
    assert_eq!(d.len(), 0);
    d.add_row(Row::new(vec![Value::Integer(1)]));
    d.add_row(Row::new(vec![Value::Integer(2)]));
    assert_eq!(d.len(), 2);
    let last: Vec<&Row> = d.iter().collect();
    assert!(*last[1].get_value(0) == Value::Integer(2));
}

#[test]
fn dataset_equality_ignores_row_order() {
    let a = grades();
    let mut b = Dataset::new(a.columns().clone());
    b.add_row(Row::new(vec![s("Carol"), s("A"), Value::Integer(82)]));
    b.add_row(Row::new(vec![s("Alice"), s("A"), Value::Integer(90)]));
    b.add_row(Row::new(vec![s("Bob"), s("B"), Value::Integer(75)]));
    assert!(a == b);
    assert!(b == a);
    assert!(a.clone() == a);
}

#[test]
fn dataset_equality_counts_repeated_rows() {
    let cols = vec![("x".to_string(), ColumnType::Integer)];
    let mut a = Dataset::new(cols.clone());
    a.add_row(Row::new(vec![Value::Integer(1)]));
    a.add_row(Row::new(vec![Value::Integer(1)]));
    a.add_row(Row::new(vec![Value::Integer(2)]));
    let mut b = Dataset::new(cols.clone());
    b.add_row(Row::new(vec![Value::Integer(1)]));
    b.add_row(Row::new(vec![Value::Integer(2)]));
    b.add_row(Row::new(vec![Value::Integer(2)]));
    assert!(a != b);
    let mut c = Dataset::new(cols);
    c.add_row(Row::new(vec![Value::Integer(1)]));
    c.add_row(Row::new(vec![Value::Integer(2)]));
    assert!(a != c);
    assert!(c != a);
}

#[test]
fn dataset_equality_compares_columns() {
    let a = Dataset::new(vec![("x".to_string(), ColumnType::Integer)]);
    let b = Dataset::new(vec![("x".to_string(), ColumnType::String)]);
    let c = Dataset::new(vec![("y".to_string(), ColumnType::Integer)]);
    assert!(a != b);
    assert!(a != c);
    assert!(a == Dataset::new(vec![("x".to_string(), ColumnType::Integer)]));
}

#[test]
fn dataset_prints_as_a_padded_table() {
    let mut d = Dataset::new(vec![
        ("name".to_string(), ColumnType::String),
        ("grade".to_string(), ColumnType::Integer),
    ]);
    d.add_row(Row::new(vec![s("Alice"), Value::Integer(90)]));
    d.add_row(Row::new(vec![s("Bob"), Value::Integer(-5)]));
    let mut expected = String::from("Dataset:\n|");
    expected.push_str(&format!(" {: <28}|", "name: String"));
    expected.push_str(&format!(" {: <28}|", "grade: Integer"));
    expected.push_str("\n|=============================|=============================|\n");
    expected.push_str(&format!("| {: <28}| {: <28}|\n", "Alice", "90"));
    expected.push_str(&format!("| {: <28}| {: <28}|\n", "Bob", "-5"));
    assert_eq!(d.to_string(), expected);
}

#[test]
fn long_cells_are_not_cut() {
    let mut d = Dataset::new(vec![("c".to_string(), ColumnType::String)]);
    let long = "abcdefghijklmnopqrstuvwxyz0123456789";
    d.add_row(Row::new(vec![s(long)]));
    let text = d.to_string();
    assert!(text.contains(&format!("| {}|\n", long)));
    assert!(text.starts_with(&format!("Dataset:\n| {}{}|\n", "c: String", " ".repeat(19))));
}

#[test]
fn integer_text_reads_back() {
    for n in [0, 7, -7, 10, 99, 100, -100, 123456789, i32::MAX, i32::MIN] {
        assert_eq!(Value::Integer(n).to_string().parse::<i32>(), Ok(n));
    }
    assert_eq!(s("plain text").to_string(), "plain text");
}

#[test]
fn appended_rows_come_back_in_order() {
    let mut d = Dataset::new(vec![("x".to_string(), ColumnType::Integer)]);
    for k in 0..5 {
        d.add_row(Row::new(vec![Value::Integer(k)]));
    }
    assert_eq!(d.len(), 5);
    assert_eq!(d.iter().count(), 5);
    let seen: Vec<String> = d.iter().map(|r| r.get_value(0).to_string()).collect();
    assert_eq!(seen, vec!["0", "1", "2", "3", "4"]);
}

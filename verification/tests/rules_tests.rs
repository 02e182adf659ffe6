use oxi_db::{Column, ColumnType, DbError, Key, Row, Table, TableContents, Value};

fn users() -> Table {
    let columns = vec![
        Column::new("id", ColumnType::Integer),
        Column::new("name", ColumnType::Text),
        Column::new("active", ColumnType::Boolean),
    ];
    Table::new("users", columns, Some("id".to_string()))
}

fn alice() -> Vec<Value> {
    vec![Value::Integer(1), Value::Text("Alice".to_string()), Value::Boolean(true)]
}

fn keys_of(rows: &[(Key, Row)]) -> Vec<String> {
    rows.iter().map(|(key, _)| key.0.clone()).collect()
}

#[test]
fn an_inserted_row_is_the_row_that_get_gives() {
    let mut table = users();
    table.insert("1", alice()).unwrap();
    let row = table.get(&Key::from("1")).unwrap();
    assert_eq!(row, &Row::new(alice()));
    assert_eq!(table.len(), 1);
    assert!(!table.is_empty());
}

#[test]
fn inserting_a_present_key_is_refused_and_keeps_the_row() {
    let mut table = users();
    assert!(table.insert("1", alice()).is_ok());

    let other = vec![Value::Integer(9), Value::Text("Eve".to_string()), Value::Boolean(false)];
    assert!(matches!(table.insert("1", other), Err(DbError::KeyExists)));
    assert!(matches!(table.insert("1", vec![]), Err(DbError::KeyExists)));

    assert_eq!(table.get(&Key::from("1")).unwrap().values, alice());
    assert_eq!(table.len(), 1);
}

#[test]
fn updating_a_missing_key_is_refused() {
    let mut table = users();
    table.insert("1", alice()).unwrap();

    let result = table.update(&Key::from("2"), alice());
    assert!(matches!(result, Err(DbError::KeyNotFound)));
    assert!(matches!(table.update(&Key::from("2"), vec![]), Err(DbError::KeyNotFound)));

    assert_eq!(keys_of(&table.get_all()), vec!["1".to_string()]);
    assert_eq!(table.get(&Key::from("1")).unwrap().values, alice());
}

#[test]
fn deleting_a_missing_key_is_refused() {
    let mut table = users();
    table.insert("1", alice()).unwrap();

    assert!(matches!(table.delete(&Key::from("2")), Err(DbError::KeyNotFound)));
    assert!(matches!(table.get(&Key::from("2")), Err(DbError::KeyNotFound)));

    assert_eq!(keys_of(&table.get_all()), vec!["1".to_string()]);
}

#[test]
fn deleting_takes_out_one_row_only() {
    let mut table = users();
    for key in ["1", "2", "3"] {
        table.insert(key, alice()).unwrap();
    }
    table.delete(&Key::from("2")).unwrap();
    assert_eq!(keys_of(&table.get_all()), vec!["1".to_string(), "3".to_string()]);
    assert!(matches!(table.delete(&Key::from("2")), Err(DbError::KeyNotFound)));
}

#[test]
fn too_few_values_are_refused() {
    let mut table = users();
    let result = table.insert("3", vec![Value::Integer(3), Value::Text("Carol".to_string())]);
    assert!(matches!(result, Err(DbError::Other(text)) if text == "Expected 3 values, got 2"));
    assert!(table.is_empty());
}

#[test]
fn too_many_values_are_refused() {
    let mut table = users();
    let mut values = alice();
    for i in 0..9 {
        values.push(Value::Integer(i));
    }
    let result = table.insert("3", values);
    assert!(matches!(result, Err(DbError::Other(text)) if text == "Expected 3 values, got 12"));

    let result = table.insert("3", vec![]);
    assert!(matches!(result, Err(DbError::Other(text)) if text == "Expected 3 values, got 0"));
    assert!(table.is_empty());
}

#[test]
fn update_checks_the_number_of_values_too() {
    let mut table = users();
    table.insert("1", alice()).unwrap();
    let result = table.update(&Key::from("1"), vec![Value::Integer(1)]);
    assert!(matches!(result, Err(DbError::Other(text)) if text == "Expected 3 values, got 1"));
    assert_eq!(table.get(&Key::from("1")).unwrap().values, alice());
}

#[test]
fn the_arity_error_spells_its_numbers_in_decimal() {
    let texts: Vec<String> = [(0, 0), (9, 10), (10, 9), (100, 1234567), (4096, 65535)]
        .iter()
        .map(|&(expected, found)| match DbError::arity(expected, found) {
            DbError::Other(text) => text,
            other => panic!("not an arity error: {:?}", other),
        })
        .collect();
    assert_eq!(
        texts,
        vec![
            "Expected 0 values, got 0",
            "Expected 9 values, got 10",
            "Expected 10 values, got 9",
            "Expected 100 values, got 1234567",
            "Expected 4096 values, got 65535",
        ]
    );
    let text = match DbError::arity(usize::MAX, 7) {
        DbError::Other(text) => text,
        other => panic!("not an arity error: {:?}", other),
    };
    assert_eq!(text, format!("Expected {} values, got 7", usize::MAX));
}

#[test]
fn a_value_of_the_wrong_type_is_refused() {
    let mut table = users();
    let values =
        vec![Value::Text("x".to_string()), Value::Text("y".to_string()), Value::Boolean(true)];
    assert!(matches!(table.insert("4", values), Err(DbError::TypeConversionError)));

    let last_wrong = vec![Value::Integer(4), Value::Text("y".to_string()), Value::Integer(1)];
    assert!(matches!(table.insert("4", last_wrong), Err(DbError::TypeConversionError)));
    assert!(table.is_empty());

    table.insert("4", alice()).unwrap();
    let wrong = vec![Value::Integer(4), Value::Blob(vec![1]), Value::Boolean(true)];
    assert!(matches!(table.update(&Key::from("4"), wrong), Err(DbError::TypeConversionError)));
    assert_eq!(table.get(&Key::from("4")).unwrap().values, alice());
}

#[test]
fn every_type_takes_its_own_values_and_null_only() {
    let types = [
        ColumnType::Integer,
        ColumnType::Float,
        ColumnType::Text,
        ColumnType::Boolean,
        ColumnType::Blob,
    ];
    let values = [
        Value::Integer(-5),
        Value::Float(2.5f64.to_bits()),
        Value::Text("t".to_string()),
        Value::Boolean(false),
        Value::Blob(vec![0, 255]),
    ];
    for (i, column_type) in types.iter().enumerate() {
        let mut table = Table::new("t", vec![Column::new("c", *column_type)], None);
        assert!(table.insert("null", vec![Value::Null]).is_ok());
        for (j, value) in values.iter().enumerate() {
            let key = format!("k{}", j);
            let result = table.insert(key.as_str(), vec![value.clone()]);
            if i == j {
                assert!(result.is_ok());
                assert_eq!(table.get(&Key::from(key)).unwrap().values, vec![value.clone()]);
            } else {
                assert!(matches!(result, Err(DbError::TypeConversionError)));
            }
        }
        assert_eq!(table.len(), 2);
    }
}

#[test]
fn a_present_key_is_reported_before_the_values_are_looked_at() {
    let mut table = users();
    table.insert("1", alice()).unwrap();
    assert!(matches!(table.insert("1", vec![Value::Boolean(true)]), Err(DbError::KeyExists)));
    let wrong = vec![Value::Boolean(true), Value::Boolean(true), Value::Boolean(true)];
    assert!(matches!(table.insert("1", wrong), Err(DbError::KeyExists)));
}

#[test]
fn the_number_of_values_is_reported_before_their_types() {
    let mut table = users();
    let result = table.insert("1", vec![Value::Boolean(true), Value::Boolean(true)]);
    assert!(matches!(result, Err(DbError::Other(text)) if text == "Expected 3 values, got 2"));
}

#[test]
fn a_table_without_columns_takes_rows_without_values() {
    let mut table = Table::new("empty", Vec::new(), None);
    assert!(table.insert("a", vec![]).is_ok());
    assert!(matches!(
        table.insert("b", vec![Value::Null]),
        Err(DbError::Other(text)) if text == "Expected 0 values, got 1"
    ));
    let map = table.get_as_map(&Key::from("a")).unwrap();
    assert_eq!(map.len(), 0);
}

#[test]
fn rows_come_out_in_ascending_order_of_their_keys() {
    let mut table = users();
    for key in ["3", "1", "2"] {
        table.insert(key, alice()).unwrap();
    }
    assert_eq!(
        keys_of(&table.get_all()),
        vec!["1".to_string(), "2".to_string(), "3".to_string()]
    );
    let found = table.find(|_| true);
    assert_eq!(keys_of(&found), vec!["1".to_string(), "2".to_string(), "3".to_string()]);
}

#[test]
fn keys_are_ordered_by_their_bytes() {
    let mut table = Table::new("t", Vec::new(), None);
    let keys = ["b", "10", "a", "2", "", "ab", "B", "é", "z", "\u{10000}", "\u{ffff}", "a\u{0}"];
    for key in keys {
        table.insert(key, vec![]).unwrap();
    }
    let mut sorted: Vec<String> = keys.iter().map(|k| k.to_string()).collect();
    sorted.sort();
    assert_eq!(keys_of(&table.get_all()), sorted);
    assert_eq!(
        sorted,
        vec!["", "10", "2", "B", "a", "a\u{0}", "ab", "b", "z", "é", "\u{ffff}", "\u{10000}"]
    );
}

#[test]
fn update_replaces_the_whole_row() {
    let mut table = users();
    table.insert("1", alice()).unwrap();
    table.insert("2", alice()).unwrap();
    let new = vec![Value::Null, Value::Text("Al".to_string()), Value::Null];
    table.update(&Key::from("1"), new.clone()).unwrap();
    assert_eq!(table.get(&Key::from("1")).unwrap().values, new);
    assert_eq!(table.get(&Key::from("2")).unwrap().values, alice());
    assert_eq!(table.len(), 2);
}

#[test]
fn find_gives_the_accepted_rows_only() {
    let mut table = users();
    for (key, id) in [("c", 3), ("a", 1), ("d", 4), ("b", 2)] {
        table
            .insert(key, vec![Value::Integer(id), Value::Null, Value::Boolean(id % 2 == 0)])
            .unwrap();
    }
    let even = table.find(|row| row.values[2] == Value::Boolean(true));
    assert_eq!(keys_of(&even), vec!["b".to_string(), "d".to_string()]);
    assert_eq!(even[0].1.values[0], Value::Integer(2));
    assert_eq!(even[1].1.values[0], Value::Integer(4));

    assert!(table.find(|_| false).is_empty());
    assert_eq!(table.len(), 4);
}

#[test]
fn get_as_map_names_the_values_by_their_columns() {
    let columns = vec![
        Column::new("a", ColumnType::Integer),
        Column::new("b", ColumnType::Text),
        Column::new("a", ColumnType::Boolean),
    ];
    let mut table = Table::new("t", columns, None);
    table
        .insert("k", vec![Value::Integer(1), Value::Text("two".to_string()), Value::Boolean(true)])
        .unwrap();

    let map = table.get_as_map(&Key::from("k")).unwrap();
    assert_eq!(map.len(), 2);
    assert_eq!(map.get("a"), Some(&Value::Boolean(true)));
    assert_eq!(map.get("b"), Some(&Value::Text("two".to_string())));
    assert_eq!(map.get("c"), None);

    assert!(matches!(table.get_as_map(&Key::from("x")), Err(DbError::KeyNotFound)));
}

#[test]
fn keys_are_made_from_slices_and_from_strings() {
    let from_slice = Key::from("user_1");
    let from_string = Key::from(String::from("user_1"));
    assert_eq!(from_slice.0, "user_1");
    assert_eq!(from_slice, from_string);
    assert_eq!(from_slice.clone(), from_slice);

    let mut table = users();
    table.insert(from_string, alice()).unwrap();
    assert!(table.get(&from_slice).is_ok());
    assert!(matches!(table.insert(String::from("user_1"), alice()), Err(DbError::KeyExists)));
}

#[test]
fn names_are_made_from_slices_and_from_strings() {
    let column = Column::new("id", ColumnType::Integer);
    assert_eq!(column.name, "id");
    assert_eq!(column.column_type, ColumnType::Integer);
    assert_eq!(Column::new(String::from("id"), ColumnType::Integer), column);
    assert_eq!(column.clone(), column);

    let table = Table::new(String::from("users"), vec![column], None);
    assert_eq!(table.name, "users");
    assert_eq!(table.primary_key, None);
}

#[test]
fn copies_of_values_and_rows_are_equal_to_them() {
    let values = vec![
        Value::Null,
        Value::Integer(i64::MIN),
        Value::Float(0.1f64.to_bits()),
        Value::Text("χ".to_string()),
        Value::Boolean(true),
        Value::Blob(vec![1, 2, 3]),
    ];
    for value in &values {
        assert_eq!(&value.clone(), value);
    }
    let row = Row::new(values.clone());
    assert_eq!(row.values, values);
    assert_eq!(row.clone(), row);
    assert_ne!(Value::Float(0.0f64.to_bits()), Value::Float((-0.0f64).to_bits()));
}

#[test]
fn a_table_is_rebuilt_from_the_rows_it_hands_out() {
    let mut table = users();
    for (key, id) in [("m", 3), ("a", 1), ("z", 4), ("c", 2)] {
        table
            .insert(key, vec![Value::Integer(id), Value::Text(key.to_string()), Value::Null])
            .unwrap();
    }
    let mut rebuilt =
        Table::new(table.name.clone(), table.columns.clone(), table.primary_key.clone());
    for (key, row) in table.get_all() {
        assert!(rebuilt.insert(key, row.values).is_ok());
    }
    assert_eq!(rebuilt.get_all(), table.get_all());
    assert_eq!(rebuilt.name, table.name);
    assert_eq!(rebuilt.columns, table.columns);
    assert_eq!(rebuilt.primary_key, table.primary_key);
    assert_eq!(rebuilt.len(), 4);
}

#[test]
fn a_copy_of_a_table_is_a_table_of_its_own() {
    let mut table = users();
    table.insert("1", alice()).unwrap();
    let mut copy = table.clone();
    assert_eq!(copy.name, "users");
    assert_eq!(copy.columns, table.columns);
    assert_eq!(copy.primary_key, table.primary_key);
    assert_eq!(copy.get_all(), table.get_all());

    copy.delete(&Key::from("1")).unwrap();
    assert!(copy.is_empty());
    assert_eq!(table.get(&Key::from("1")).unwrap().values, alice());
}

#[test]
fn a_table_is_built_again_from_its_contents() {
    let mut table = users();
    for (key, id) in [("m", 3), ("a", 1), ("z", 4), ("c", 2)] {
        table
            .insert(key, vec![Value::Integer(id), Value::Text(key.to_string()), Value::Null])
            .unwrap();
    }
    let contents = table.contents();
    assert_eq!(contents.name, "users");
    assert_eq!(contents.columns, table.columns);
    assert_eq!(contents.primary_key, Some("id".to_string()));
    assert_eq!(contents.rows, table.get_all());

    let built = Table::from_contents(contents).unwrap();
    assert_eq!(built.contents(), table.contents());
    assert_eq!(built.get(&Key::from("c")).unwrap().values[0], Value::Integer(2));
}

#[test]
fn contents_are_taken_in_any_order_of_their_rows() {
    let contents = TableContents {
        name: "t".to_string(),
        columns: vec![Column::new("n", ColumnType::Integer)],
        primary_key: None,
        rows: vec![
            (Key::from("b"), Row::new(vec![Value::Integer(2)])),
            (Key::from("a"), Row::new(vec![Value::Integer(1)])),
        ],
    };
    let table = Table::from_contents(contents).unwrap();
    assert_eq!(keys_of(&table.get_all()), vec!["a".to_string(), "b".to_string()]);
}

#[test]
fn contents_that_no_table_could_hold_are_refused() {
    let make = |rows: Vec<(Key, Row)>| TableContents {
        name: "t".to_string(),
        columns: vec![Column::new("n", ColumnType::Integer)],
        primary_key: None,
        rows,
    };
    let good = Row::new(vec![Value::Integer(1)]);

    let twice = make(vec![(Key::from("a"), good.clone()), (Key::from("a"), good.clone())]);
    assert!(matches!(Table::from_contents(twice), Err(DbError::KeyExists)));

    let short = make(vec![(Key::from("a"), good.clone()), (Key::from("b"), Row::new(vec![]))]);
    assert!(matches!(
        Table::from_contents(short),
        Err(DbError::Other(text)) if text == "Expected 1 values, got 0"
    ));

    let wrong = make(vec![(Key::from("a"), Row::new(vec![Value::Boolean(true)]))]);
    assert!(matches!(Table::from_contents(wrong), Err(DbError::TypeConversionError)));

    let first_fault =
        make(vec![(Key::from("a"), Row::new(vec![])), (Key::from("a"), good.clone())]);
    assert!(matches!(Table::from_contents(first_fault), Err(DbError::Other(_))));

    assert!(Table::from_contents(make(vec![])).unwrap().is_empty());
}

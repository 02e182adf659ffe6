use oxi_db::{Column, ColumnType, Database, DbError, Key, Value};

fn create_test_db(db_name: &str) -> Database {
    let db_path = format!("{}.db", db_name);

    let mut db = Database::new(&db_path);

    let columns = vec![
        Column::new("id", ColumnType::Integer),
        Column::new("name", ColumnType::Text),
        Column::new("active", ColumnType::Boolean),
    ];

    db.create_table("users", columns, Some("id".to_string())).unwrap();

    db
}

#[test]
fn test_database_create_table() {
    let mut db = create_test_db("test_create_table");

    let columns = vec![
        Column::new("id", ColumnType::Integer),
        Column::new("title", ColumnType::Text),
        Column::new("content", ColumnType::Text),
    ];

    let result = db.create_table("posts", columns, Some("id".to_string()));
    assert!(result.is_ok());

    let tables = db.list_tables();
    assert!(tables.contains(&"users".to_string()));
    assert!(tables.contains(&"posts".to_string()));
}

#[test]
fn test_database_drop_table() {
    let mut db = create_test_db("test_drop_table");

    let result = db.drop_table("users");
    assert!(result.is_ok());

    let tables = db.list_tables();
    assert!(!tables.contains(&"users".to_string()));
}

#[test]
fn test_database_insert_and_get() {
    let mut db = create_test_db("test_insert_get");

    let result = db.insert(
        "users",
        "1",
        vec![
            Value::Integer(1),
            Value::Text("Alice".to_string()),
            Value::Boolean(true),
        ],
    );
    assert!(result.is_ok());

    let key = Key::from("1");
    let row = db.get("users", &key);
    assert!(row.is_ok());

    let row = row.unwrap();
    assert_eq!(row.values[0], Value::Integer(1));
    assert_eq!(row.values[1], Value::Text("Alice".to_string()));
    assert_eq!(row.values[2], Value::Boolean(true));
}

#[test]
fn test_database_update() {
    let mut db = create_test_db("test_update");

    db.insert(
        "users",
        "1",
        vec![
            Value::Integer(1),
            Value::Text("Alice".to_string()),
            Value::Boolean(true),
        ],
    )
    .unwrap();

    let key = Key::from("1");
    let result = db.update(
        "users",
        &key,
        vec![
            Value::Integer(1),
            Value::Text("Alice Smith".to_string()),
            Value::Boolean(false),
        ],
    );
    assert!(result.is_ok());

    let row = db.get("users", &key).unwrap();
    assert_eq!(row.values[0], Value::Integer(1));
    assert_eq!(row.values[1], Value::Text("Alice Smith".to_string()));
    assert_eq!(row.values[2], Value::Boolean(false));
}

#[test]
fn test_database_delete() {
    let mut db = create_test_db("test_delete");

    db.insert(
        "users",
        "1",
        vec![
            Value::Integer(1),
            Value::Text("Alice".to_string()),
            Value::Boolean(true),
        ],
    )
    .unwrap();

    let key = Key::from("1");
    let result = db.delete("users", &key);
    assert!(result.is_ok());

    let row = db.get("users", &key);
    assert!(row.is_err());
}

#[test]
fn database_starts_empty_and_keeps_its_path() {
    let db = Database::new("data/store.db");
    assert!(db.list_tables().is_empty());
    assert_eq!(db.path(), &std::path::PathBuf::from("data/store.db"));
}

#[test]
fn creating_a_table_twice_is_refused() {
    let mut db = create_test_db("twice");
    db.insert("users", "1", vec![Value::Null, Value::Null, Value::Null]).unwrap();

    let again = db.create_table("users", vec![Column::new("x", ColumnType::Blob)], None);
    assert!(matches!(again, Err(DbError::TableExists)));

    let table = db.get_table("users").unwrap();
    assert_eq!(table.columns.len(), 3);
    assert_eq!(table.len(), 1);
    assert_eq!(db.list_tables(), vec!["users".to_string()]);
}

#[test]
fn a_new_table_is_empty_and_carries_its_schema() {
    let db = create_test_db("schema");
    let table = db.get_table("users").unwrap();
    assert_eq!(table.name, "users");
    assert_eq!(table.primary_key, Some("id".to_string()));
    assert_eq!(table.columns[0], Column::new("id", ColumnType::Integer));
    assert_eq!(table.columns[1], Column::new("name", ColumnType::Text));
    assert_eq!(table.columns[2], Column::new("active", ColumnType::Boolean));
    assert!(table.is_empty());
}

#[test]
fn a_dropped_table_is_gone() {
    let mut db = create_test_db("lifecycle");
    db.create_table("posts", Vec::new(), None).unwrap();

    db.drop_table("users").unwrap();

    assert!(matches!(db.get_table("users"), Err(DbError::TableNotFound)));
    assert!(matches!(db.get_table_mut("users"), Err(DbError::TableNotFound)));
    assert_eq!(db.list_tables(), vec!["posts".to_string()]);
    assert!(matches!(db.drop_table("users"), Err(DbError::TableNotFound)));
    assert!(db.get_table("posts").is_ok());
}

#[test]
fn a_missing_table_is_reported_by_every_operation() {
    let mut db = create_test_db("missing");
    let key = Key::from("1");

    assert!(matches!(db.insert("nobody", "1", vec![]), Err(DbError::TableNotFound)));
    assert!(matches!(db.get("nobody", &key), Err(DbError::TableNotFound)));
    assert!(matches!(db.update("nobody", &key, vec![]), Err(DbError::TableNotFound)));
    assert!(matches!(db.delete("nobody", &key), Err(DbError::TableNotFound)));
    assert!(matches!(db.drop_table("nobody"), Err(DbError::TableNotFound)));
    assert_eq!(db.list_tables(), vec!["users".to_string()]);
}

#[test]
fn table_names_are_listed_in_ascending_order() {
    let mut db = Database::new("names.db");
    for name in ["pears", "apples", "zebras", "Zoo", "apple", ""] {
        db.create_table(name, Vec::new(), None).unwrap();
    }
    assert_eq!(
        db.list_tables(),
        vec![
            "".to_string(),
            "Zoo".to_string(),
            "apple".to_string(),
            "apples".to_string(),
            "pears".to_string(),
            "zebras".to_string(),
        ]
    );
}

#[test]
fn the_table_errors_pass_through_the_database() {
    let mut db = create_test_db("errors");
    let row = vec![Value::Integer(1), Value::Text("Alice".to_string()), Value::Boolean(true)];
    db.insert("users", "1", row.clone()).unwrap();

    assert!(matches!(db.insert("users", "1", row.clone()), Err(DbError::KeyExists)));
    assert!(matches!(db.update("users", &Key::from("2"), row.clone()), Err(DbError::KeyNotFound)));
    assert!(matches!(db.delete("users", &Key::from("2")), Err(DbError::KeyNotFound)));
    assert!(matches!(db.get("users", &Key::from("2")), Err(DbError::KeyNotFound)));
    assert!(matches!(
        db.insert("users", "3", vec![Value::Integer(3), Value::Null]),
        Err(DbError::Other(text)) if text == "Expected 3 values, got 2"
    ));
    assert!(matches!(
        db.insert(
            "users",
            "4",
            vec![Value::Text("x".to_string()), Value::Text("y".to_string()), Value::Boolean(true)]
        ),
        Err(DbError::TypeConversionError)
    ));
    assert_eq!(db.get_table("users").unwrap().len(), 1);
    assert_eq!(db.get("users", &Key::from("1")).unwrap().values, row);
}

#[test]
fn changes_to_one_table_leave_the_others_alone() {
    let mut db = create_test_db("others");
    db.create_table("flags", vec![Column::new("on", ColumnType::Boolean)], None).unwrap();
    db.insert("flags", "a", vec![Value::Boolean(true)]).unwrap();
    db.insert("users", "1", vec![Value::Null, Value::Null, Value::Null]).unwrap();
    db.delete("users", &Key::from("1")).unwrap();

    assert_eq!(db.get("flags", &Key::from("a")).unwrap().values, vec![Value::Boolean(true)]);
    assert!(db.get_table("users").unwrap().is_empty());
}

#[test]
fn a_table_reached_for_change_is_changed_in_the_database() {
    let mut db = create_test_db("reach");
    {
        let table = db.get_table_mut("users").unwrap();
        table.insert("7", vec![Value::Integer(7), Value::Null, Value::Boolean(false)]).unwrap();
    }
    let row = db.get("users", &Key::from("7")).unwrap();
    assert_eq!(row.values, vec![Value::Integer(7), Value::Null, Value::Boolean(false)]);
}

#[test]
fn the_example_database_holds_two_users() {
    let db = oxi_db::example().unwrap();
    assert_eq!(db.path(), &std::path::PathBuf::from("example.db"));
    assert_eq!(db.list_tables(), vec!["users".to_string()]);

    let table = db.get_table("users").unwrap();
    assert_eq!(table.name, "users");
    assert_eq!(table.primary_key, Some("id".to_string()));
    assert_eq!(
        table.columns,
        vec![
            Column::new("id", ColumnType::Integer),
            Column::new("name", ColumnType::Text),
            Column::new("active", ColumnType::Boolean),
        ]
    );

    let rows = table.get_all();
    assert_eq!(rows.len(), 2);
    assert_eq!(rows[0].0, Key::from("1"));
    assert_eq!(
        rows[0].1.values,
        vec![Value::Integer(1), Value::Text("Alice".to_string()), Value::Boolean(true)]
    );
    assert_eq!(rows[1].0, Key::from("2"));
    assert_eq!(
        rows[1].1.values,
        vec![Value::Integer(2), Value::Text("Bob".to_string()), Value::Boolean(false)]
    );
}

#[test]
fn a_copy_of_a_database_is_a_database_of_its_own() {
    let mut db = create_test_db("copy");
    db.insert("users", "1", vec![Value::Integer(1), Value::Null, Value::Null]).unwrap();

    let mut copy = db.clone();
    assert_eq!(copy.path(), db.path());
    assert_eq!(copy.list_tables(), db.list_tables());
    assert_eq!(
        copy.get_table("users").unwrap().get_all(),
        db.get_table("users").unwrap().get_all()
    );

    copy.drop_table("users").unwrap();
    assert!(copy.list_tables().is_empty());
    assert_eq!(db.get("users", &Key::from("1")).unwrap().values[0], Value::Integer(1));
}

#[test]
fn a_database_is_built_again_from_its_contents() {
    let mut db = create_test_db("contents");
    db.create_table("flags", vec![Column::new("on", ColumnType::Boolean)], None).unwrap();
    db.insert("users", "2", vec![Value::Integer(2), Value::Null, Value::Boolean(false)]).unwrap();
    db.insert(
        "users",
        "1",
        vec![Value::Integer(1), Value::Text("Alice".to_string()), Value::Boolean(true)],
    )
    .unwrap();
    db.insert("flags", "a", vec![Value::Boolean(true)]).unwrap();

    let contents = db.contents();
    assert_eq!(contents.len(), 2);
    assert_eq!(contents[0].0, "flags");
    assert_eq!(contents[1].0, "users");
    assert_eq!(contents[1].1.rows.len(), 2);

    let built = Database::from_contents("elsewhere.db", contents).unwrap();
    assert_eq!(built.path(), &std::path::PathBuf::from("elsewhere.db"));
    assert_eq!(built.list_tables(), db.list_tables());
    assert_eq!(built.contents(), db.contents());
    let row = built.get("users", &Key::from("1")).unwrap();
    assert_eq!(
        row.values,
        vec![Value::Integer(1), Value::Text("Alice".to_string()), Value::Boolean(true)]
    );
    assert_eq!(built.get_table("users").unwrap().primary_key, Some("id".to_string()));
}

#[test]
fn contents_that_no_database_could_hold_are_refused() {
    let table = |rows: Vec<(Key, oxi_db::Row)>| oxi_db::TableContents {
        name: "t".to_string(),
        columns: vec![Column::new("n", ColumnType::Integer)],
        primary_key: None,
        rows,
    };
    let twice = vec![("t".to_string(), table(vec![])), ("t".to_string(), table(vec![]))];
    assert!(matches!(Database::from_contents("x.db", twice), Err(DbError::TableExists)));

    let bad_row = vec![
        ("a".to_string(), table(vec![])),
        ("b".to_string(), table(vec![(Key::from("k"), oxi_db::Row::new(vec![Value::Null, Value::Null]))])),
    ];
    assert!(matches!(
        Database::from_contents("x.db", bad_row),
        Err(DbError::Other(text)) if text == "Expected 1 values, got 2"
    ));

    let unsorted = vec![("b".to_string(), table(vec![])), ("a".to_string(), table(vec![]))];
    let built = Database::from_contents("x.db", unsorted).unwrap();
    assert_eq!(built.list_tables(), vec!["a".to_string(), "b".to_string()]);

    assert!(Database::from_contents("x.db", Vec::new()).unwrap().list_tables().is_empty());
}

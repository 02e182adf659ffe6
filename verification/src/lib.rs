//! A small embedded store of typed rows, kept in named tables.
//!
//! A [`Database`] holds [`Table`]s under unique names. A table has a fixed
//! list of typed columns and holds rows under unique keys, in ascending
//! order of the keys; every row has one value for each column, of the
//! column's type or `Null`. Under both lies [`BTree`], an ordered container.
//!
//! The database lives in memory. It is bound to the path of a file, and
//! hands out all that it holds as plain values (`Database::contents`), from
//! which it is built again (`Database::from_contents`), so that the program
//! that holds it can keep it in that file.
//!
//! Every operation states what it does, over the rows and tables as
//! sequences ascending by key, and is proved to do it.
pub mod btree;
pub mod database;
pub mod error;
pub mod order;
pub mod table;
pub mod types;

pub use btree::BTree;
pub use database::Database;
pub use error::DbError;
pub use table::{Table, TableContents};
pub use types::{Column, ColumnType, Key, Row, Value};

use btree::{ascending_index_of, upsert_behind_all};
use database::DatabaseView;
use order::text_before;
use table::TableView;
use types::ValueView;
use vstd::prelude::*;

verus! {

/// The database that [`example`] builds: one table, `users`, with the
/// columns `id`, `name` and `active`, the primary key `id`, and a row each
/// under the keys `1` and `2`.
pub open spec fn is_example(db: DatabaseView) -> bool {
    &&& db.tables.len() == 1
    &&& db.tables[0].0@ == "users"@
    &&& db.tables[0].1.name@ == "users"@
    &&& db.tables[0].1.columns.len() == 3
    &&& db.tables[0].1.columns[0].name@ == "id"@
    &&& db.tables[0].1.columns[0].column_type == ColumnType::Integer
    &&& db.tables[0].1.columns[1].name@ == "name"@
    &&& db.tables[0].1.columns[1].column_type == ColumnType::Text
    &&& db.tables[0].1.columns[2].name@ == "active"@
    &&& db.tables[0].1.columns[2].column_type == ColumnType::Boolean
    &&& db.tables[0].1.primary_key matches Some(primary_key)
    &&& primary_key@ == "id"@
    &&& db.tables[0].1.rows.len() == 2
    &&& db.tables[0].1.rows[0].0@ == "1"@
    &&& db.tables[0].1.rows[0].1@ == seq![
        ValueView::Integer(1),
        ValueView::Text("Alice"@),
        ValueView::Boolean(true),
    ]
    &&& db.tables[0].1.rows[1].0@ == "2"@
    &&& db.tables[0].1.rows[1].1@ == seq![
        ValueView::Integer(2),
        ValueView::Text("Bob"@),
        ValueView::Boolean(false),
    ]
}

/// The text `1` sorts ahead of the text `2`.
proof fn one_before_two()
    ensures
        text_before("1"@, "2"@),
        "1"@ != "2"@,
{
    reveal_strlit("1");
    reveal_strlit("2");
    vstd::utf8::is_ascii_chars_encode_utf8("1"@);
    vstd::utf8::is_ascii_chars_encode_utf8("2"@);
}

/// Shows the library at work: makes a database bound to `example.db`, gives
/// it a table, and stores two rows. The database is handed back for the
/// caller to keep; nothing is written to the file.
pub fn example() -> (result: Result<Database, DbError>)
    ensures
        result matches Ok(db) && db.wf() && is_example(db@),
{
    let mut db = Database::new("example.db");
    let ghost db0 = db@;

    let mut columns: Vec<Column> = Vec::new();
    columns.push(Column::new("id", ColumnType::Integer));
    columns.push(Column::new("name", ColumnType::Text));
    columns.push(Column::new("active", ColumnType::Boolean));

    let ghost schema = columns@;
    let primary_key = Some("id".to_owned());
    let created = db.create_table("users", columns, primary_key);
    let ghost db1 = db@;
    let ghost name = choose|n: String|
        call_ensures(<&str as Into<String>>::into, ("users",), n) && db0.create_outcome(
            n,
            schema,
            primary_key,
            db1,
            created,
        );
    let ghost made = TableView { name, columns: schema, primary_key, rows: Seq::empty() };
    proof {
        upsert_behind_all(db0.tables, name, made);
        assert(db1.tables[0].0@ == "users"@);
        ascending_index_of(db1.tables, 0);
    }
    match created {
        Ok(_) => {},
        Err(error) => {
            return Err(error);
        },
    }

    let mut first: Vec<Value> = Vec::new();
    first.push(Value::Integer(1));
    first.push(Value::Text("Alice".to_owned()));
    first.push(Value::Boolean(true));
    let stored = db.insert("users", "1", first);
    let ghost db2 = db@;
    let ghost key1 = choose|k: Key|
        call_ensures(<&str as Into<Key>>::into, ("1",), k) && db1.insert_outcome(
            "users"@,
            k,
            first,
            db2,
            stored,
        );
    let ghost row1 = Row { values: first };
    proof {
        assert(first.deep_view() =~= seq![
            ValueView::Integer(1),
            ValueView::Text("Alice"@),
            ValueView::Boolean(true),
        ]);
        upsert_behind_all(made.rows, key1, row1);
        assert(db2.tables[0].0@ == "users"@);
        ascending_index_of(db2.tables, 0);
    }
    match stored {
        Ok(_) => {},
        Err(error) => {
            return Err(error);
        },
    }

    let mut second: Vec<Value> = Vec::new();
    second.push(Value::Integer(2));
    second.push(Value::Text("Bob".to_owned()));
    second.push(Value::Boolean(false));
    let stored = db.insert("users", "2", second);
    let ghost db3 = db@;
    let ghost key2 = choose|k: Key|
        call_ensures(<&str as Into<Key>>::into, ("2",), k) && db2.insert_outcome(
            "users"@,
            k,
            second,
            db3,
            stored,
        );
    let ghost row2 = Row { values: second };
    proof {
        one_before_two();
        assert(second.deep_view() =~= seq![
            ValueView::Integer(2),
            ValueView::Text("Bob"@),
            ValueView::Boolean(false),
        ]);
        let rows1 = seq![(key1, row1)];
        upsert_behind_all(rows1, key2, row2);
        assert(db3.table("users"@).rows == seq![(key1, row1), (key2, row2)]);
    }
    match stored {
        Ok(_) => {},
        Err(error) => {
            return Err(error);
        },
    }

    Ok(db)
}

} // verus!

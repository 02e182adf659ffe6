//! The database: tables under unique names, and the path of the file that
//! the whole of it is kept in.
//!
//! Every operation works on the database in memory. A change that succeeds
//! is to be written out by the program that holds the database: the whole
//! of it, as `contents` hands it out. `from_contents` builds the database
//! again from what was written.
use crate::btree::{
    ascending, has_key, replace_value, replace_value_properties, slot, slot_exists,
    upsert, upsert_behind_all, value_at, with_values, with_values_ascending, with_values_lookup,
    with_values_replace, with_values_upsert, with_values_without, without, without_properties,
    BTree,
};
use crate::error::DbError;
use crate::order::text_before;
use crate::table::{contents_replay, taken_rows_build, Table, TableContents, TableView};
use crate::types::{Column, Key, Row, Value};
use std::path::PathBuf;
use vstd::prelude::*;

verus! {

/// A path of the file system, as the standard library holds it. Nothing is
/// known of what is inside.
#[verifier::external_type_specification]
#[verifier::external_body]
pub struct ExPathBuf(PathBuf);

/// `PathBuf::clone`: the copy is the same path.
pub assume_specification[ <PathBuf as Clone>::clone ](path: &PathBuf) -> (copy: PathBuf)
    ensures
        copy == *path,
;

/// The model of a [`Database`].
pub struct DatabaseView {
    /// Where the database is kept.
    pub path: PathBuf,
    /// The tables with their names, ascending by name.
    pub tables: Seq<(String, TableView)>,
}

impl DatabaseView {
    /// No name occurs twice, and every table is well formed.
    pub open spec fn wf(self) -> bool {
        &&& ascending(self.tables)
        &&& forall|i: int| 0 <= i < self.tables.len() ==> (#[trigger] self.tables[i]).1.wf()
    }

    /// `self` holds the same tables as `other` under the same names: each
    /// with the same columns, the same primary key and the same rows.
    pub open spec fn same_tables(self, other: DatabaseView) -> bool {
        &&& self.tables.len() == other.tables.len()
        &&& forall|i: int|
            0 <= i < self.tables.len() ==> (#[trigger] self.tables[i]).0@ == other.tables[i].0@
                && self.tables[i].1.same_as(other.tables[i].1)
    }

    /// `self` is bound to the path of `other`, and holds the same tables
    /// under the same names.
    pub open spec fn same_as(self, other: DatabaseView) -> bool {
        self.path == other.path && self.same_tables(other)
    }

    /// The database has a table called `name`.
    pub open spec fn has_table(self, name: Seq<char>) -> bool {
        has_key(self.tables, name)
    }

    /// The table called `name`, if there is one.
    pub open spec fn table(self, name: Seq<char>) -> TableView {
        value_at(self.tables, name)
    }

    /// The database with the tables `tables` in place of its own.
    pub open spec fn with_tables(self, tables: Seq<(String, TableView)>) -> DatabaseView {
        DatabaseView { tables, ..self }
    }

    /// The database with `table` in place of the table called `name`.
    pub open spec fn with_table(self, name: Seq<char>, table: TableView) -> DatabaseView {
        self.with_tables(replace_value(self.tables, name, table))
    }

    /// The database differs from `after` in the table called `name` at
    /// most.
    pub open spec fn changed_in(self, name: Seq<char>, after: DatabaseView) -> bool {
        after == self.with_table(name, after.table(name))
    }

    /// A table built from `contents` can be added under `name`: the name
    /// is new, and every row of the contents is taken.
    pub open spec fn adds(self, name: String, contents: TableContents) -> bool {
        !self.has_table(name@) && contents.start().replays(contents.rows@)
    }

    /// The database after the tables built from `tables` were added, one
    /// after the other, each under its name.
    pub open spec fn loaded(self, tables: Seq<(String, TableContents)>) -> DatabaseView
        decreases tables.len(),
    {
        if tables.len() == 0 {
            self
        } else {
            let before = self.loaded(tables.drop_last());
            before.with_tables(upsert(before.tables, tables.last().0, tables.last().1.built()))
        }
    }

    /// Every table of `tables` can be added when they are added one after
    /// the other.
    pub open spec fn loads(self, tables: Seq<(String, TableContents)>) -> bool
        decreases tables.len(),
    {
        tables.len() == 0 || (self.loads(tables.drop_last()) && self.loaded(
            tables.drop_last(),
        ).adds(tables.last().0, tables.last().1))
    }

    /// What adding the tables of `tables` to this database gives: the
    /// database with all of them, if each can be added, and else the error
    /// of the first that cannot.
    pub open spec fn restore_outcome(
        self,
        tables: Seq<(String, TableContents)>,
        result: Result<DatabaseView, DbError>,
    ) -> bool {
        match result {
            Ok(db) => self.loads(tables) && db == self.loaded(tables),
            Err(error) => exists|n: int| self.fails_at(tables, n, error),
        }
    }

    /// Adding the tables of `tables` fails with `error`: those ahead of
    /// position `n` are added, and the one at `n` has a name that is then
    /// taken, or a row that is refused.
    pub open spec fn fails_at(
        self,
        tables: Seq<(String, TableContents)>,
        n: int,
        error: DbError,
    ) -> bool {
        &&& 0 <= n < tables.len()
        &&& self.loads(tables.take(n))
        &&& if self.loaded(tables.take(n)).has_table(tables[n].0@) {
            error is TableExists
        } else {
            exists|m: int| tables[n].1.fails_at(m, error)
        }
    }

    /// What `create_table` makes of the database: `after` is the database
    /// then, `result` what is returned.
    pub open spec fn create_outcome(
        self,
        name: String,
        columns: Seq<Column>,
        primary_key: Option<String>,
        after: DatabaseView,
        result: Result<(), DbError>,
    ) -> bool {
        match result {
            Ok(_) => {
                &&& !self.has_table(name@)
                &&& after == self.with_tables(
                    upsert(
                        self.tables,
                        name,
                        TableView { name, columns, primary_key, rows: Seq::empty() },
                    ),
                )
            },
            Err(error) => self.has_table(name@) && error is TableExists && after == self,
        }
    }

    /// What `drop_table` makes of the database.
    pub open spec fn drop_outcome(
        self,
        name: Seq<char>,
        after: DatabaseView,
        result: Result<(), DbError>,
    ) -> bool {
        match result {
            Ok(_) => self.has_table(name) && after == self.with_tables(without(self.tables, name)),
            Err(error) => !self.has_table(name) && error is TableNotFound && after == self,
        }
    }

    /// What `insert` makes of the database: without the table it fails
    /// with `TableNotFound`; with it, it does to that table what the
    /// table's own `insert` does, and leaves the others as they are.
    pub open spec fn insert_outcome(
        self,
        table_name: Seq<char>,
        key: Key,
        values: Vec<Value>,
        after: DatabaseView,
        result: Result<(), DbError>,
    ) -> bool {
        if self.has_table(table_name) {
            &&& self.changed_in(table_name, after)
            &&& self.table(table_name).insert_outcome(key, values, after.table(table_name), result)
        } else {
            &&& after == self
            &&& result matches Err(error)
            &&& error is TableNotFound
        }
    }

    /// What `update` makes of the database: without the table it fails
    /// with `TableNotFound`; with it, it does to that table what the
    /// table's own `update` does, and leaves the others as they are.
    pub open spec fn update_outcome(
        self,
        table_name: Seq<char>,
        key: Key,
        values: Vec<Value>,
        after: DatabaseView,
        result: Result<(), DbError>,
    ) -> bool {
        if self.has_table(table_name) {
            &&& self.changed_in(table_name, after)
            &&& self.table(table_name).update_outcome(key, values, after.table(table_name), result)
        } else {
            &&& after == self
            &&& result matches Err(error)
            &&& error is TableNotFound
        }
    }

    /// What `delete` makes of the database: without the table it fails
    /// with `TableNotFound`; with it, it does to that table what the
    /// table's own `delete` does, and leaves the others as they are.
    pub open spec fn delete_outcome(
        self,
        table_name: Seq<char>,
        key: Key,
        after: DatabaseView,
        result: Result<(), DbError>,
    ) -> bool {
        if self.has_table(table_name) {
            &&& self.changed_in(table_name, after)
            &&& self.table(table_name).delete_outcome(key, after.table(table_name), result)
        } else {
            &&& after == self
            &&& result matches Err(error)
            &&& error is TableNotFound
        }
    }
}

/// `tables` are the contents of `db`: of each of its tables, in their
/// order, the name and what the table holds.
pub open spec fn is_contents(tables: Seq<(String, TableContents)>, db: DatabaseView) -> bool {
    &&& tables.len() == db.tables.len()
    &&& forall|i: int|
        0 <= i < tables.len() ==> (#[trigger] tables[i]).0@ == db.tables[i].0@ && tables[i].1.is_of(
            db.tables[i].1,
        )
}

/// The tables that are built from `tables`, each under its name.
pub open spec fn built_tables(tables: Seq<(String, TableContents)>) -> Seq<(String, TableView)> {
    Seq::new(tables.len(), |i: int| (tables[i].0, tables[i].1.built()))
}

/// Tables that can all be added can be added up to any position, and the
/// table at that position can be added next.
pub proof fn loads_prefix(db: DatabaseView, tables: Seq<(String, TableContents)>, n: int)
    requires
        db.loads(tables),
        0 <= n <= tables.len(),
    ensures
        db.loads(tables.take(n)),
        n < tables.len() ==> db.loaded(tables.take(n)).adds(tables[n].0, tables[n].1),
    decreases tables.len(),
{
    if n == tables.len() {
        assert(tables.take(n) =~= tables);
    } else if n < tables.len() - 1 {
        let front = tables.drop_last();
        loads_prefix(db, front, n);
        assert(front.take(n) =~= tables.take(n));
    }
}

/// A database is built again from what it hands out: the contents of its
/// tables, added in their order to an empty database, are all added, and
/// make a database with the same tables under the same names, each with the
/// same columns, the same primary key and the same rows.
pub proof fn contents_restore(
    db: DatabaseView,
    tables: Seq<(String, TableContents)>,
    start: DatabaseView,
    result: Result<DatabaseView, DbError>,
)
    requires
        db.wf(),
        is_contents(tables, db),
        start.tables == Seq::<(String, TableView)>::empty(),
        start.restore_outcome(tables, result),
    ensures
        result == Ok::<DatabaseView, DbError>(start.with_tables(built_tables(tables))),
        start.with_tables(built_tables(tables)).wf(),
        start.with_tables(built_tables(tables)).same_tables(db),
{
    contents_load(db, tables, start);
    if let Err(error) = result {
        let n = choose|n: int| start.fails_at(tables, n, error);
        loads_prefix(start, tables, n);
        if !start.loaded(tables.take(n)).has_table(tables[n].0@) {
            let m = choose|m: int| tables[n].1.fails_at(m, error);
            taken_rows_build(tables[n].1, m, error);
        }
    }
}

/// The contents of a database's tables can all be added to an empty
/// database, and make the tables that are built from them.
pub proof fn contents_load(
    db: DatabaseView,
    tables: Seq<(String, TableContents)>,
    start: DatabaseView,
)
    requires
        db.wf(),
        is_contents(tables, db),
        start.tables == Seq::<(String, TableView)>::empty(),
    ensures
        start.loads(tables),
        start.loaded(tables) == start.with_tables(built_tables(tables)),
        start.with_tables(built_tables(tables)).wf(),
        start.with_tables(built_tables(tables)).same_tables(db),
    decreases tables.len(),
{
    let built = built_tables(tables);
    assert forall|i: int| 0 <= i < tables.len() implies {
        &&& tables[i].1.start().replays(tables[i].1.rows@)
        &&& (#[trigger] built[i]).1.wf()
        &&& built[i].1.same_as(db.tables[i].1)
        &&& built[i].0@ == db.tables[i].0@
    } by {
        contents_replay(db.tables[i].1, tables[i].1);
    }
    if tables.len() == 0 {
        assert(built =~= Seq::empty());
    } else {
        let n = tables.len() - 1;
        let front = tables.drop_last();
        let part = db.with_tables(db.tables.drop_last());
        assert(part.wf());
        assert(is_contents(front, part));
        contents_load(part, front, start);
        let before = start.loaded(front);
        assert(before.tables =~= built.drop_last());
        upsert_behind_all(before.tables, tables[n].0, tables[n].1.built());
        assert(built.drop_last().push(built[n]) =~= built);
    }
}

/// Once a table is dropped, the database has no table of that name: looking
/// for it fails with `TableNotFound`, and the name is not among the names of
/// the tables.
pub proof fn dropped_table_is_gone(
    db: DatabaseView,
    name: Seq<char>,
    after: DatabaseView,
    result: Result<(), DbError>,
)
    requires
        db.wf(),
        db.drop_outcome(name, after, result),
    ensures
        !after.has_table(name),
        forall|i: int| 0 <= i < after.tables.len() ==> (#[trigger] after.tables[i]).0@ != name,
{
    without_properties(db.tables, name);
}

/// The function that takes a table to its model.
pub open spec fn table_view() -> spec_fn(Table) -> TableView {
    |table: Table| table@
}

/// A set of named tables, bound to the path of a file.
#[derive(Debug)]
pub struct Database {
    path: PathBuf,
    tables: BTree<String, Table>,
}

impl View for Database {
    type V = DatabaseView;

    closed spec fn view(&self) -> DatabaseView {
        DatabaseView { path: self.path, tables: with_values(self.tables@, table_view()) }
    }
}

impl Clone for Database {
    fn clone(&self) -> (copy: Self)
        ensures
            copy@.same_as(self@),
            self.wf() ==> copy.wf(),
    {
        let copy = Database { path: self.path.clone(), tables: self.tables.clone() };
        proof {
            with_values_ascending(self.tables@, table_view());
            with_values_ascending(copy.tables@, table_view());
            if self.wf() {
                let copies = copy@.tables;
                assert forall|i: int| 0 <= i < copies.len() implies (#[trigger] copies[i]).1.wf() by {
                    assert(self@.tables[i].1.wf());
                }
            }
        }
        copy
    }
}

impl Database {
    /// The database's invariant: no table name occurs twice, and every
    /// table is well formed.
    pub open spec fn wf(&self) -> bool {
        self@.wf()
    }

    /// Makes an empty database bound to the path that `path` converts to.
    /// Nothing is read or written.
    pub fn new<P: Into<PathBuf>>(path: P) -> (db: Self)
        ensures
            call_ensures(<P as Into<PathBuf>>::into, (path,), db@.path),
            db@.tables == Seq::<(String, TableView)>::empty(),
            db.wf(),
    {
        let db = Self { path: path.into(), tables: BTree::new() };
        db
    }

    /// The path that the database is bound to.
    pub fn path(&self) -> (path: &PathBuf)
        ensures
            *path == self@.path,
    {
        &self.path
    }

    /// Adds an empty table under the name that `name` converts to.
    ///
    /// Fails with `TableExists` if the database has a table of that name.
    pub fn create_table<N: Into<String>>(
        &mut self,
        name: N,
        columns: Vec<Column>,
        primary_key: Option<String>,
    ) -> (result: Result<(), DbError>)
        requires
            old(self).wf(),
        ensures
            final(self).wf(),
            exists|n: String|
                #![trigger call_ensures(<N as Into<String>>::into, (name,), n)]
                call_ensures(<N as Into<String>>::into, (name,), n) && old(self)@.create_outcome(
                    n,
                    columns@,
                    primary_key,
                    final(self)@,
                    result,
                ),
    {
        let name: String = name.into();
        proof {
            with_values_ascending(self.tables@, table_view());
            with_values_lookup(self.tables@, table_view(), name@);
        }
        if self.tables.search(&name).is_some() {
            return Err(DbError::TableExists);
        }
        let table = Table::new(name.clone(), columns, primary_key);
        self.tables.insert(name, table);
        proof {
            let after = self@.tables;
            assert forall|i: int| 0 <= i < after.len() implies (#[trigger] after[i]).1.wf() by {
                let p = slot(old(self)@.tables, name@);
                slot_exists(old(self)@.tables, name@);
                if i < p {
                    assert(after[i] == old(self)@.tables[i]);
                } else if i > p {
                    assert(after[i] == old(self)@.tables[i - 1]);
                }
            }
            with_values_upsert(old(self).tables@, table_view(), name, table);
        }
        Ok(())
    }

    /// Takes out the table called `name`, with all its rows.
    ///
    /// Fails with `TableNotFound` if the database has no table of that
    /// name.
    pub fn drop_table(&mut self, name: &str) -> (result: Result<(), DbError>)
        requires
            old(self).wf(),
        ensures
            final(self).wf(),
            old(self)@.drop_outcome(name@, final(self)@, result),
    {
        let name = name.to_owned();
        proof {
            with_values_ascending(self.tables@, table_view());
            with_values_lookup(self.tables@, table_view(), name@);
            with_values_without(self.tables@, table_view(), name@);
            without_properties(self.tables@, name@);
        }
        match self.tables.remove(&name) {
            Some(_) => Ok(()),
            None => Err(DbError::TableNotFound),
        }
    }

    /// The table called `name`.
    pub fn get_table(&self, name: &str) -> (result: Result<&Table, DbError>)
        requires
            self.wf(),
        ensures
            match result {
                Ok(table) => self@.has_table(name@) && table@ == self@.table(name@) && table.wf(),
                Err(error) => !self@.has_table(name@) && error is TableNotFound,
            },
    {
        let name = name.to_owned();
        proof {
            with_values_ascending(self.tables@, table_view());
            with_values_lookup(self.tables@, table_view(), name@);
        }
        match self.tables.search(&name) {
            Some(table) => Ok(table),
            None => Err(DbError::TableNotFound),
        }
    }

    /// Access to the table called `name`. The table that the caller
    /// leaves there is the one that the database then holds under the
    /// name; the database stays well formed if that table is.
    pub fn get_table_mut(&mut self, name: &str) -> (result: Result<&mut Table, DbError>)
        requires
            old(self).wf(),
        ensures
            match result {
                Ok(table) => {
                    &&& old(self)@.has_table(name@)
                    &&& table@ == old(self)@.table(name@)
                    &&& table.wf()
                    &&& final(self)@ == old(self)@.with_table(name@, final(table)@)
                    &&& final(table).wf() ==> final(self).wf()
                },
                Err(error) => {
                    &&& !old(self)@.has_table(name@)
                    &&& error is TableNotFound
                    &&& final(self)@ == old(self)@
                },
            },
    {
        let name = name.to_owned();
        proof {
            with_values_ascending(self.tables@, table_view());
            with_values_lookup(self.tables@, table_view(), name@);
            if has_key(self.tables@, name@) {
                with_values_replace(self.tables@, table_view(), name@);
            }
        }
        match self.tables.get_mut(&name) {
            Some(table) => Ok(table),
            None => Err(DbError::TableNotFound),
        }
    }

    /// A copy of what the database holds: of each table, in ascending
    /// order of the names, the name and the contents.
    pub fn contents(&self) -> (tables: Vec<(String, TableContents)>)
        requires
            self.wf(),
        ensures
            is_contents(tables@, self@),
    {
        let mut tables: Vec<(String, TableContents)> = Vec::new();
        let mut i: usize = 0;
        while i < self.tables.len()
            invariant
                i <= self.tables@.len(),
                self.wf(),
                self@.tables.len() == self.tables@.len(),
                tables@.len() == i,
                forall|j: int|
                    0 <= j < i ==> (#[trigger] tables@[j]).0@ == self@.tables[j].0@
                        && tables@[j].1.is_of(self@.tables[j].1),
            decreases self.tables@.len() - i,
        {
            let pair = self.tables.pair_at(i);
            proof {
                assert(self@.tables[i as int].1.wf());
            }
            tables.push((pair.0.clone(), pair.1.contents()));
            i += 1;
        }
        tables
    }

    /// Builds a database, bound to the path that `path` converts to, from
    /// `tables`: each table is built from its contents and added under its
    /// name, one after the other.
    ///
    /// Fails with `TableExists` on the first name that occurs twice, and as
    /// `insert` does on the first row that its table refuses.
    pub fn from_contents<P: Into<PathBuf>>(path: P, tables: Vec<(String, TableContents)>) -> (result:
        Result<Database, DbError>)
        ensures
            result matches Ok(db) ==> db.wf(),
            exists|start: DatabaseView|
                #![trigger call_ensures(<P as Into<PathBuf>>::into, (path,), start.path)]
                {
                    &&& call_ensures(<P as Into<PathBuf>>::into, (path,), start.path)
                    &&& start.tables == Seq::<(String, TableView)>::empty()
                    &&& start.restore_outcome(
                        tables@,
                        match result {
                            Ok(db) => Ok(db@),
                            Err(error) => Err(error),
                        },
                    )
                },
    {
        let mut db = Database::new(path);
        let ghost start = db@;
        let ghost given = tables@;
        for pair in it: tables
            invariant
                it.seq() == given,
                given == tables@,
                call_ensures(<P as Into<PathBuf>>::into, (path,), start.path),
                start.tables == Seq::<(String, TableView)>::empty(),
                db.wf(),
                start.loads(given.take(it.index() as int)),
                db@ == start.loaded(given.take(it.index() as int)),
        {
            let ghost n = it.index() as int;
            let ghost before = db@;
            proof {
                assert(given.take(n + 1).drop_last() =~= given.take(n));
                with_values_ascending(db.tables@, table_view());
                with_values_lookup(db.tables@, table_view(), pair.0@);
            }
            if db.tables.search(&pair.0).is_some() {
                proof {
                    assert(start.fails_at(given, n, DbError::TableExists));
                }
                return Err(DbError::TableExists);
            }
            let table = match Table::from_contents(pair.1) {
                Ok(table) => table,
                Err(error) => {
                    proof {
                        assert(start.fails_at(given, n, error));
                    }
                    return Err(error);
                },
            };
            let ghost held = db.tables@;
            db.tables.insert(pair.0, table);
            proof {
                let after = db@.tables;
                assert forall|i: int| 0 <= i < after.len() implies (#[trigger] after[i]).1.wf() by {
                    let p = slot(before.tables, pair.0@);
                    slot_exists(before.tables, pair.0@);
                    if i < p {
                        assert(after[i] == before.tables[i]);
                    } else if i > p {
                        assert(after[i] == before.tables[i - 1]);
                    }
                }
                with_values_upsert(held, table_view(), pair.0, table);
            }
        }
        proof {
            assert(given.take(given.len() as int) =~= given);
        }
        Ok(db)
    }

    /// The names of the tables, in ascending order.
    pub fn list_tables(&self) -> (names: Vec<String>)
        requires
            self.wf(),
        ensures
            names@.len() == self@.tables.len(),
            forall|i: int| 0 <= i < names@.len() ==> (#[trigger] names@[i])@ == self@.tables[i].0@,
            forall|i: int, j: int|
                0 <= i < j < names@.len() ==> text_before(
                    (#[trigger] names@[i])@,
                    (#[trigger] names@[j])@,
                ),
    {
        let mut names: Vec<String> = Vec::new();
        let mut i: usize = 0;
        while i < self.tables.len()
            invariant
                i <= self.tables@.len(),
                self@.tables.len() == self.tables@.len(),
                names@.len() == i,
                forall|j: int| 0 <= j < i ==> (#[trigger] names@[j])@ == self@.tables[j].0@,
            decreases self.tables@.len() - i,
        {
            let pair = self.tables.pair_at(i);
            names.push(pair.0.clone());
            i += 1;
        }
        names
    }

    /// Stores a new row in the table called `table_name`.
    ///
    /// Fails with `TableNotFound` if there is no such table, and else as
    /// the table's own `insert` does.
    pub fn insert<Q: Into<Key>>(&mut self, table_name: &str, key: Q, values: Vec<Value>) -> (result:
        Result<(), DbError>)
        requires
            old(self).wf(),
        ensures
            final(self).wf(),
            exists|k: Key|
                #![trigger call_ensures(<Q as Into<Key>>::into, (key,), k)]
                call_ensures(<Q as Into<Key>>::into, (key,), k) && old(self)@.insert_outcome(
                    table_name@,
                    k,
                    values,
                    final(self)@,
                    result,
                ),
    {
        let key: Key = key.into();
        match self.get_table_mut(table_name) {
            Ok(table) => {
                let result = table.insert(key, values);
                proof {
                    replace_value_properties(old(self)@.tables, table_name@, table@);
                }
                result
            },
            Err(error) => Err(error),
        }
    }

    /// The row stored under `key` in the table called `table_name`.
    ///
    /// Fails with `TableNotFound` if there is no such table, and with
    /// `KeyNotFound` if the table has no such row.
    pub fn get(&self, table_name: &str, key: &Key) -> (result: Result<&Row, DbError>)
        requires
            self.wf(),
        ensures
            match result {
                Ok(row) => {
                    &&& self@.has_table(table_name@)
                    &&& self@.table(table_name@).row(key@) == Some(*row)
                },
                Err(error) => if self@.has_table(table_name@) {
                    self@.table(table_name@).row(key@) is None && error is KeyNotFound
                } else {
                    error is TableNotFound
                },
            },
    {
        match self.get_table(table_name) {
            Ok(table) => table.get(key),
            Err(error) => Err(error),
        }
    }

    /// Replaces the row stored under `key` in the table called
    /// `table_name`.
    ///
    /// Fails with `TableNotFound` if there is no such table, and else as
    /// the table's own `update` does.
    pub fn update(&mut self, table_name: &str, key: &Key, values: Vec<Value>) -> (result: Result<
        (),
        DbError,
    >)
        requires
            old(self).wf(),
        ensures
            final(self).wf(),
            old(self)@.update_outcome(table_name@, *key, values, final(self)@, result),
    {
        match self.get_table_mut(table_name) {
            Ok(table) => {
                let result = table.update(key, values);
                proof {
                    replace_value_properties(old(self)@.tables, table_name@, table@);
                }
                result
            },
            Err(error) => Err(error),
        }
    }

    /// Takes out the row stored under `key` in the table called
    /// `table_name`.
    ///
    /// Fails with `TableNotFound` if there is no such table, and else as
    /// the table's own `delete` does.
    pub fn delete(&mut self, table_name: &str, key: &Key) -> (result: Result<(), DbError>)
        requires
            old(self).wf(),
        ensures
            final(self).wf(),
            old(self)@.delete_outcome(table_name@, *key, final(self)@, result),
    {
        match self.get_table_mut(table_name) {
            Ok(table) => {
                let result = table.delete(key);
                proof {
                    replace_value_properties(old(self)@.tables, table_name@, table@);
                }
                result
            },
            Err(error) => Err(error),
        }
    }
}

} // verus!

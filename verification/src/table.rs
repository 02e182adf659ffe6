//! Tables: rows under unique keys, each row fitting the table's columns.
use crate::btree::{
    ascending, entries_map, has_key, slot_exists, upsert, upsert_behind_all, upsert_properties,
    value_at, without, BTree,
};
use crate::error::{arity_message, DbError};
use crate::types::{value_fits, Column, ColumnType, Key, Row, Value, ValueView};
use vstd::hash_map::StringHashMap;
use vstd::prelude::*;

verus! {

/// Every value is of the type that its column declares, or `Null`.
pub open spec fn types_fit(columns: Seq<Column>, values: Seq<ValueView>) -> bool {
    forall|i: int|
        0 <= i < values.len() && i < columns.len() ==> value_fits(
            (#[trigger] columns[i]).column_type,
            values[i],
        )
}

/// `values` can be stored as a row under `columns`: there is one value for
/// each column, and it fits the column.
pub open spec fn row_fits(columns: Seq<Column>, values: Seq<ValueView>) -> bool {
    values.len() == columns.len() && types_fit(columns, values)
}

/// `error` is the report of what keeps `values` from being a row under
/// `columns`. The number of values is looked at first, then their types.
pub open spec fn row_refused(
    columns: Seq<Column>,
    values: Seq<ValueView>,
    error: DbError,
) -> bool {
    if values.len() != columns.len() {
        error matches DbError::Other(text) && text@ == arity_message(columns.len(), values.len())
    } else {
        !types_fit(columns, values) && error is TypeConversionError
    }
}

/// The values of a row by the names of their columns. Where two columns
/// have one name, the later one is kept.
pub open spec fn named_values(columns: Seq<Column>, values: Seq<ValueView>) -> Map<
    Seq<char>,
    ValueView,
>
    decreases columns.len(),
{
    if columns.len() == 0 {
        Map::empty()
    } else if columns.len() <= values.len() {
        named_values(columns.drop_last(), values).insert(
            columns.last().name@,
            values[columns.len() - 1],
        )
    } else {
        named_values(columns.drop_last(), values)
    }
}

/// `picks` lists, in ascending order, the positions of the rows in `rows`
/// that `predicate` accepts; it rejects the others.
pub open spec fn is_selection<F: Fn(&Row) -> bool>(
    rows: Seq<(Key, Row)>,
    predicate: F,
    picks: Seq<int>,
) -> bool {
    &&& forall|j: int| 0 <= j < picks.len() ==> 0 <= #[trigger] picks[j] < rows.len()
    &&& forall|j: int, k: int| 0 <= j < k < picks.len() ==> picks[j] < picks[k]
    &&& forall|i: int|
        0 <= i < rows.len() ==> call_ensures(
            predicate,
            (&(#[trigger] rows[i]).1,),
            picks.contains(i),
        )
}

/// `a` and `b` hold the same rows under the same keys, in the same order.
pub open spec fn same_rows(a: Seq<(Key, Row)>, b: Seq<(Key, Row)>) -> bool {
    &&& a.len() == b.len()
    &&& forall|i: int| 0 <= i < a.len() ==> (#[trigger] a[i]).0@ == b[i].0@ && a[i].1@ == b[i].1@
}

/// A named set of rows with a fixed list of columns.
///
/// The name, the columns and the name of the primary key are set when the
/// table is made. The primary key is a note for the reader: nothing relates
/// it to the keys under which rows are stored.
#[derive(Debug)]
pub struct Table {
    /// The name of the table.
    pub name: String,
    /// The columns, in the order of a row's values.
    pub columns: Vec<Column>,
    /// The name of the column meant as primary key, if any.
    pub primary_key: Option<String>,
    data: BTree<Key, Row>,
}

/// The model of a [`Table`]: what it is called, what its rows must look
/// like, and the rows it holds.
pub struct TableView {
    /// The name of the table.
    pub name: String,
    /// The columns, in the order of a row's values.
    pub columns: Seq<Column>,
    /// The name of the column meant as primary key, if any.
    pub primary_key: Option<String>,
    /// The rows with their keys, ascending by key.
    pub rows: Seq<(Key, Row)>,
}

impl TableView {
    /// No key occurs twice, and every row fits the columns.
    pub open spec fn wf(self) -> bool {
        &&& ascending(self.rows)
        &&& forall|i: int|
            0 <= i < self.rows.len() ==> row_fits(self.columns, (#[trigger] self.rows[i]).1@)
    }

    /// `self` has the name, the columns and the primary key of `other`,
    /// and holds the same rows under the same keys.
    pub open spec fn same_as(self, other: TableView) -> bool {
        &&& self.name == other.name
        &&& self.columns == other.columns
        &&& self.primary_key == other.primary_key
        &&& same_rows(self.rows, other.rows)
    }

    /// The row stored under `key`, if there is one.
    pub open spec fn row(self, key: Seq<char>) -> Option<Row> {
        if has_key(self.rows, key) {
            Some(value_at(self.rows, key))
        } else {
            None
        }
    }

    /// The table with a row of `values` stored under `key`, in place of the
    /// row under that key if there is one.
    pub open spec fn stored(self, key: Key, values: Vec<Value>) -> TableView {
        self.with_rows(upsert(self.rows, key, Row { values }))
    }

    /// `insert` takes a row of `values` under `key`: the key is new, and the
    /// values fit the columns.
    pub open spec fn takes(self, key: Key, values: Vec<Value>) -> bool {
        !has_key(self.rows, key@) && row_fits(self.columns, values.deep_view())
    }

    /// The table after each row of `rows` was inserted, one after the
    /// other.
    pub open spec fn replayed(self, rows: Seq<(Key, Row)>) -> TableView
        decreases rows.len(),
    {
        if rows.len() == 0 {
            self
        } else {
            self.replayed(rows.drop_last()).stored(rows.last().0, rows.last().1.values)
        }
    }

    /// Every row of `rows` is taken when they are inserted one after the
    /// other.
    pub open spec fn replays(self, rows: Seq<(Key, Row)>) -> bool
        decreases rows.len(),
    {
        rows.len() == 0 || (self.replays(rows.drop_last()) && self.replayed(rows.drop_last()).takes(
            rows.last().0,
            rows.last().1.values,
        ))
    }

    /// The table with the rows `rows` in place of its own.
    pub open spec fn with_rows(self, rows: Seq<(Key, Row)>) -> TableView {
        TableView { rows, ..self }
    }

    /// What `insert` of `values` under `key` makes of the table: `after` is
    /// the table then, `result` what is returned. A key that is present is
    /// reported first, then what is wrong with the values.
    pub open spec fn insert_outcome(
        self,
        key: Key,
        values: Vec<Value>,
        after: TableView,
        result: Result<(), DbError>,
    ) -> bool {
        match result {
            Ok(_) => self.takes(key, values) && after == self.stored(key, values),
            Err(error) => {
                &&& after == self
                &&& if has_key(self.rows, key@) {
                    error is KeyExists
                } else {
                    row_refused(self.columns, values.deep_view(), error)
                }
            },
        }
    }

    /// What `update` of the row under `key` to `values` makes of the
    /// table. A key that is absent is reported first, then what is wrong
    /// with the values.
    pub open spec fn update_outcome(
        self,
        key: Key,
        values: Vec<Value>,
        after: TableView,
        result: Result<(), DbError>,
    ) -> bool {
        match result {
            Ok(_) => {
                &&& has_key(self.rows, key@)
                &&& row_fits(self.columns, values.deep_view())
                &&& after == self.stored(key, values)
            },
            Err(error) => {
                &&& after == self
                &&& if has_key(self.rows, key@) {
                    row_refused(self.columns, values.deep_view(), error)
                } else {
                    error is KeyNotFound
                }
            },
        }
    }

    /// What `delete` of `key` makes of the table.
    pub open spec fn delete_outcome(
        self,
        key: Key,
        after: TableView,
        result: Result<(), DbError>,
    ) -> bool {
        match result {
            Ok(_) => has_key(self.rows, key@) && after == self.with_rows(without(self.rows, key@)),
            Err(error) => !has_key(self.rows, key@) && error is KeyNotFound && after == self,
        }
    }
}

/// What a table holds, laid out as plain values: the form in which a table
/// is handed out to be kept elsewhere, and taken back.
#[derive(Debug, PartialEq)]
pub struct TableContents {
    /// The name of the table.
    pub name: String,
    /// The columns, in the order of a row's values.
    pub columns: Vec<Column>,
    /// The name of the column meant as primary key, if any.
    pub primary_key: Option<String>,
    /// The rows with their keys.
    pub rows: Vec<(Key, Row)>,
}

impl TableContents {
    /// The empty table with this name, these columns and this primary key.
    pub open spec fn start(self) -> TableView {
        TableView {
            name: self.name,
            columns: self.columns@,
            primary_key: self.primary_key,
            rows: Seq::empty(),
        }
    }

    /// The table that is built from these contents, if every row is taken.
    pub open spec fn built(self) -> TableView {
        self.start().replayed(self.rows@)
    }

    /// These contents are those of `table`: its name, columns and primary
    /// key, and its rows in their order.
    pub open spec fn is_of(self, table: TableView) -> bool {
        &&& self.name == table.name
        &&& self.columns@ == table.columns
        &&& self.primary_key == table.primary_key
        &&& same_rows(self.rows@, table.rows)
    }

    /// What building a table from these contents gives: the table built,
    /// if every row is taken, and else the error of the first row that is
    /// refused.
    pub open spec fn build_outcome(self, result: Result<TableView, DbError>) -> bool {
        match result {
            Ok(table) => self.start().replays(self.rows@) && table == self.built(),
            Err(error) => exists|n: int| self.fails_at(n, error),
        }
    }

    /// Building a table from these contents fails with `error`: the rows
    /// ahead of position `n` are taken, and the one at `n` is refused with
    /// that error.
    pub open spec fn fails_at(self, n: int, error: DbError) -> bool {
        &&& 0 <= n < self.rows@.len()
        &&& self.start().replays(self.rows@.take(n))
        &&& self.start().replayed(self.rows@.take(n)).insert_outcome(
            self.rows@[n].0,
            self.rows@[n].1.values,
            self.start().replayed(self.rows@.take(n)),
            Err(error),
        )
    }
}

/// A row that is inserted under a new key, and fits the columns, is stored,
/// and is then the row found under that key.
pub proof fn insert_then_get(
    table: TableView,
    key: Key,
    values: Vec<Value>,
    after: TableView,
    result: Result<(), DbError>,
)
    requires
        table.wf(),
        !has_key(table.rows, key@),
        row_fits(table.columns, values.deep_view()),
        table.insert_outcome(key, values, after, result),
    ensures
        result is Ok,
        after.row(key@) == Some(Row { values }),
{
    upsert_properties(table.rows, key, Row { values });
    assert(entries_map(after.rows).dom().contains(key@));
    assert(entries_map(after.rows)[key@] == Row { values });
}

/// Inserting under a key that is present fails with `KeyExists`, and leaves
/// the table, and so the row under that key, as it was.
pub proof fn insert_present_key(
    table: TableView,
    key: Key,
    values: Vec<Value>,
    after: TableView,
    result: Result<(), DbError>,
)
    requires
        table.wf(),
        has_key(table.rows, key@),
        table.insert_outcome(key, values, after, result),
    ensures
        result matches Err(error) && error is KeyExists,
        after == table,
        after.row(key@) == table.row(key@),
{
}

/// Updating under a key that is absent fails with `KeyNotFound`, and leaves
/// the table as it was.
pub proof fn update_absent_key(
    table: TableView,
    key: Key,
    values: Vec<Value>,
    after: TableView,
    result: Result<(), DbError>,
)
    requires
        table.wf(),
        !has_key(table.rows, key@),
        table.update_outcome(key, values, after, result),
    ensures
        result matches Err(error) && error is KeyNotFound,
        after == table,
{
}

/// Deleting a key that is absent fails with `KeyNotFound`, and leaves the
/// table as it was.
pub proof fn delete_absent_key(
    table: TableView,
    key: Key,
    after: TableView,
    result: Result<(), DbError>,
)
    requires
        table.wf(),
        !has_key(table.rows, key@),
        table.delete_outcome(key, after, result),
    ensures
        result matches Err(error) && error is KeyNotFound,
        after == table,
{
}

/// Values that are more or fewer than the columns are refused, by `insert`
/// and by `update` alike, and the table stays as it was.
pub proof fn arity_enforced(
    table: TableView,
    key: Key,
    values: Vec<Value>,
    after: TableView,
    result: Result<(), DbError>,
)
    requires
        table.wf(),
        values@.len() != table.columns.len(),
        table.insert_outcome(key, values, after, result) || table.update_outcome(
            key,
            values,
            after,
            result,
        ),
    ensures
        result is Err,
        after == table,
{
}

/// Values of which one is of another type than its column declares, and is
/// not `Null`, are refused, by `insert` and by `update` alike, and the
/// table stays as it was.
pub proof fn type_enforced(
    table: TableView,
    key: Key,
    values: Vec<Value>,
    after: TableView,
    result: Result<(), DbError>,
    i: int,
)
    requires
        table.wf(),
        0 <= i < values@.len(),
        i < table.columns.len(),
        !value_fits(table.columns[i].column_type, values@[i]@),
        table.insert_outcome(key, values, after, result) || table.update_outcome(
            key,
            values,
            after,
            result,
        ),
    ensures
        result is Err,
        after == table,
{
}

/// A table can be rebuilt from what it hands out: the rows that `get_all`
/// gives, inserted in that order into an empty table of the same columns,
/// are all taken, and are then the rows of that table.
pub proof fn replay_rebuilds(table: TableView, rows: Seq<(Key, Row)>)
    requires
        table.wf(),
        same_rows(rows, table.rows),
    ensures
        table.with_rows(Seq::empty()).replays(rows),
        table.with_rows(Seq::empty()).replayed(rows).wf(),
        table.with_rows(Seq::empty()).replayed(rows) == table.with_rows(rows),
    decreases rows.len(),
{
    if rows.len() == 0 {
        assert(rows =~= Seq::empty());
    } else {
        let front = rows.drop_last();
        let part = table.with_rows(table.rows.drop_last());
        assert(part.wf());
        replay_rebuilds(part, front);
        let last = rows.last();
        upsert_behind_all(front, last.0, Row { values: last.1.values });
        assert(front.push(last) =~= rows);
    }
}

/// Rows that are all taken are taken up to any position, and the row at
/// that position is taken next.
pub proof fn replays_prefix(table: TableView, rows: Seq<(Key, Row)>, n: int)
    requires
        table.replays(rows),
        0 <= n <= rows.len(),
    ensures
        table.replays(rows.take(n)),
        n < rows.len() ==> table.replayed(rows.take(n)).takes(rows[n].0, rows[n].1.values),
    decreases rows.len(),
{
    if n == rows.len() {
        assert(rows.take(n) =~= rows);
    } else if n < rows.len() - 1 {
        let front = rows.drop_last();
        replays_prefix(table, front, n);
        assert(front.take(n) =~= rows.take(n));
    }
}

/// Contents of which every row is taken do not fail to build.
pub proof fn taken_rows_build(contents: TableContents, n: int, error: DbError)
    requires
        contents.start().replays(contents.rows@),
    ensures
        !contents.fails_at(n, error),
{
    if 0 <= n < contents.rows@.len() {
        replays_prefix(contents.start(), contents.rows@, n);
    }
}

/// Of the contents that a table hands out every row is taken, and they
/// build a table with the same name, columns, primary key and rows.
pub proof fn contents_replay(table: TableView, contents: TableContents)
    requires
        table.wf(),
        contents.is_of(table),
    ensures
        contents.start().replays(contents.rows@),
        contents.built().wf(),
        contents.built().same_as(table),
{
    replay_rebuilds(table, contents.rows@);
}

/// A table is built again from the contents that it hands out: building
/// succeeds, and gives a table with the same name, columns, primary key and
/// rows.
pub proof fn contents_rebuild(
    table: TableView,
    contents: TableContents,
    result: Result<TableView, DbError>,
)
    requires
        table.wf(),
        contents.is_of(table),
        contents.build_outcome(result),
    ensures
        result == Ok::<TableView, DbError>(contents.built()),
        contents.built().wf(),
        contents.built().same_as(table),
{
    contents_replay(table, contents);
    if let Err(error) = result {
        let n = choose|n: int| contents.fails_at(n, error);
        taken_rows_build(contents, n, error);
    }
}

/// `Null` fits a column of any type.
pub proof fn null_fits_any_column(column_type: ColumnType)
    ensures
        value_fits(column_type, ValueView::Null),
{
}

impl View for Table {
    type V = TableView;

    closed spec fn view(&self) -> TableView {
        TableView {
            name: self.name,
            columns: self.columns@,
            primary_key: self.primary_key,
            rows: self.data@,
        }
    }
}

impl Clone for Table {
    fn clone(&self) -> (copy: Self)
        ensures
            copy@.same_as(self@),
            self.wf() ==> copy.wf(),
    {
        let columns = self.columns.clone();
        let primary_key = match &self.primary_key {
            Some(name) => Some(name.clone()),
            None => None,
        };
        Table { name: self.name.clone(), columns, primary_key, data: self.data.clone() }
    }
}

impl Table {
    /// The table's invariant: no key occurs twice, and every row fits the
    /// columns.
    pub open spec fn wf(&self) -> bool {
        self@.wf()
    }

    /// Makes an empty table. Its name is what `name` converts to.
    pub fn new<N: Into<String>>(name: N, columns: Vec<Column>, primary_key: Option<String>) -> (table:
        Self)
        ensures
            call_ensures(<N as Into<String>>::into, (name,), table@.name),
            table@.columns == columns@,
            table@.primary_key == primary_key,
            table@.rows == Seq::<(Key, Row)>::empty(),
            table.wf(),
    {
        Self { name: name.into(), columns, primary_key, data: BTree::new() }
    }

    /// Tells whether the column at `column_idx` takes `value`.
    fn validate_value_type(&self, column_idx: usize, value: &Value) -> (result: Result<
        (),
        DbError,
    >)
        requires
            column_idx < self@.columns.len(),
        ensures
            result is Ok <==> value_fits(self@.columns[column_idx as int].column_type, value@),
            result matches Err(error) ==> error is TypeConversionError,
    {
        let column = &self.columns[column_idx];
        let valid = match (column.column_type, value) {
            (ColumnType::Integer, Value::Integer(_)) => true,
            (ColumnType::Float, Value::Float(_)) => true,
            (ColumnType::Text, Value::Text(_)) => true,
            (ColumnType::Boolean, Value::Boolean(_)) => true,
            (ColumnType::Blob, Value::Blob(_)) => true,
            (_, Value::Null) => true,
            _ => false,
        };
        if valid {
            Ok(())
        } else {
            Err(DbError::TypeConversionError)
        }
    }

    /// Tells whether `values` can be stored as a row of this table.
    fn check_row(&self, values: &Vec<Value>) -> (result: Result<(), DbError>)
        ensures
            match result {
                Ok(_) => row_fits(self@.columns, values.deep_view()),
                Err(error) => row_refused(self@.columns, values.deep_view(), error),
            },
    {
        if values.len() != self.columns.len() {
            return Err(DbError::arity(self.columns.len(), values.len()));
        }
        let mut i: usize = 0;
        while i < values.len()
            invariant
                i <= values.len(),
                values.len() == self.columns.len(),
                forall|j: int|
                    0 <= j < i ==> value_fits(
                        (#[trigger] self@.columns[j]).column_type,
                        values.deep_view()[j],
                    ),
            decreases values.len() - i,
        {
            match self.validate_value_type(i, &values[i]) {
                Ok(_) => {},
                Err(error) => {
                    assert(!value_fits(
                        self@.columns[i as int].column_type,
                        values.deep_view()[i as int],
                    ));
                    return Err(error);
                },
            }
            i += 1;
        }
        Ok(())
    }

    /// Stores a new row of `values` under the key that `key` converts to.
    ///
    /// Fails with `KeyExists` if a row is stored under the key, else with
    /// the report on the number of values if it is not the number of
    /// columns, else with `TypeConversionError` if a value does not fit its
    /// column. A failure changes nothing.
    pub fn insert<Q: Into<Key>>(&mut self, key: Q, values: Vec<Value>) -> (result: Result<
        (),
        DbError,
    >)
        requires
            old(self).wf(),
        ensures
            final(self).wf(),
            exists|k: Key|
                #![trigger call_ensures(<Q as Into<Key>>::into, (key,), k)]
                call_ensures(<Q as Into<Key>>::into, (key,), k) && old(self)@.insert_outcome(
                    k,
                    values,
                    final(self)@,
                    result,
                ),
    {
        let key: Key = key.into();
        let result = self.insert_row(key, values);
        result
    }

    /// Stores a new row of `values` under `key`.
    fn insert_row(&mut self, key: Key, values: Vec<Value>) -> (result: Result<(), DbError>)
        requires
            old(self).wf(),
        ensures
            final(self).wf(),
            old(self)@.insert_outcome(key, values, final(self)@, result),
    {
        if self.data.search(&key).is_some() {
            return Err(DbError::KeyExists);
        }
        match self.check_row(&values) {
            Ok(_) => {},
            Err(error) => {
                return Err(error);
            },
        }
        let row = Row::new(values);
        proof {
            slot_exists(self@.rows, key@);
        }
        self.data.insert(key, row);
        Ok(())
    }

    /// The row stored under `key`.
    pub fn get(&self, key: &Key) -> (result: Result<&Row, DbError>)
        requires
            self.wf(),
        ensures
            match result {
                Ok(row) => self@.row(key@) == Some(*row),
                Err(error) => self@.row(key@) is None && error is KeyNotFound,
            },
    {
        match self.data.search(key) {
            Some(row) => Ok(row),
            None => Err(DbError::KeyNotFound),
        }
    }

    /// Replaces the whole row stored under `key` by one of `values`.
    ///
    /// Fails with `KeyNotFound` if no row is stored under the key, else
    /// with the report on the number of values if it is not the number of
    /// columns, else with `TypeConversionError` if a value does not fit its
    /// column. A failure changes nothing.
    pub fn update(&mut self, key: &Key, values: Vec<Value>) -> (result: Result<(), DbError>)
        requires
            old(self).wf(),
        ensures
            final(self).wf(),
            old(self)@.update_outcome(*key, values, final(self)@, result),
    {
        if self.data.search(key).is_none() {
            return Err(DbError::KeyNotFound);
        }
        match self.check_row(&values) {
            Ok(_) => {},
            Err(error) => {
                return Err(error);
            },
        }
        let row = Row::new(values);
        match self.data.get_mut(key) {
            Some(held) => {
                *held = row;
                Ok(())
            },
            None => Err(DbError::KeyNotFound),
        }
    }

    /// Takes out the row stored under `key`.
    pub fn delete(&mut self, key: &Key) -> (result: Result<(), DbError>)
        requires
            old(self).wf(),
        ensures
            final(self).wf(),
            old(self)@.delete_outcome(*key, final(self)@, result),
    {
        match self.data.remove(key) {
            Some(_) => Ok(()),
            None => Err(DbError::KeyNotFound),
        }
    }

    /// A copy of what the table holds: its name, its columns, its primary
    /// key, and its rows in ascending order of their keys.
    pub fn contents(&self) -> (contents: TableContents)
        requires
            self.wf(),
        ensures
            contents.is_of(self@),
            ascending(contents.rows@),
    {
        let columns = self.columns.clone();
        let primary_key = match &self.primary_key {
            Some(name) => Some(name.clone()),
            None => None,
        };
        TableContents { name: self.name.clone(), columns, primary_key, rows: self.data.to_vec() }
    }

    /// Builds a table from `contents`: an empty table with that name, those
    /// columns and that primary key, into which the rows are inserted one
    /// after the other.
    ///
    /// Fails as `insert` does on the first row that is refused.
    pub fn from_contents(contents: TableContents) -> (result: Result<Table, DbError>)
        ensures
            result matches Ok(table) ==> table.wf(),
            contents.build_outcome(
                match result {
                    Ok(table) => Ok(table@),
                    Err(error) => Err(error),
                },
            ),
    {
        let ghost start = contents.start();
        let ghost rows = contents.rows@;
        let mut table = Table::new(contents.name, contents.columns, contents.primary_key);
        for pair in it: contents.rows
            invariant
                it.seq() == rows,
                rows == contents.rows@,
                start == contents.start(),
                table.wf(),
                start.replays(rows.take(it.index() as int)),
                table@ == start.replayed(rows.take(it.index() as int)),
        {
            let ghost n = it.index() as int;
            proof {
                assert(rows.take(n + 1).drop_last() =~= rows.take(n));
            }
            match table.insert_row(pair.0, pair.1.values) {
                Ok(_) => {},
                Err(error) => {
                    proof {
                        assert(contents.fails_at(n, error));
                    }
                    return Err(error);
                },
            }
        }
        proof {
            assert(rows.take(rows.len() as int) =~= rows);
        }
        Ok(table)
    }

    /// A copy of every row with its key, ascending by key.
    pub fn get_all(&self) -> (all: Vec<(Key, Row)>)
        requires
            self.wf(),
        ensures
            same_rows(all@, self@.rows),
            ascending(all@),
    {
        self.data.to_vec()
    }

    /// The number of rows.
    pub fn len(&self) -> (n: usize)
        ensures
            n == self@.rows.len(),
    {
        self.data.len()
    }

    /// Whether the table has no row.
    pub fn is_empty(&self) -> (empty: bool)
        ensures
            empty == (self@.rows.len() == 0),
    {
        self.data.is_empty()
    }

    /// The row stored under `key`, as a map from the names of the columns
    /// to a copy of the row's values.
    pub fn get_as_map(&self, key: &Key) -> (result: Result<StringHashMap<Value>, DbError>)
        requires
            self.wf(),
        ensures
            match result {
                Ok(map) => {
                    &&& has_key(self@.rows, key@)
                    &&& map@.map_values(|value: Value| value@) == named_values(
                        self@.columns,
                        value_at(self@.rows, key@)@,
                    )
                },
                Err(error) => !has_key(self@.rows, key@) && error is KeyNotFound,
            },
    {
        let row = match self.get(key) {
            Ok(row) => row,
            Err(error) => {
                return Err(error);
            },
        };
        let mut map: StringHashMap<Value> = StringHashMap::new();
        let mut i: usize = 0;
        while i < self.columns.len()
            invariant
                i <= self.columns.len(),
                map@.map_values(|value: Value| value@) == named_values(
                    self@.columns.take(i as int),
                    row@,
                ),
            decreases self.columns.len() - i,
        {
            let ghost held = map@;
            let ghost columns = self@.columns;
            proof {
                assert(columns.take(i + 1).drop_last() =~= columns.take(i as int));
            }
            if i < row.values.len() {
                let value = row.values[i].clone();
                map.insert(self.columns[i].name.clone(), value);
                assert(map@.map_values(|value: Value| value@) =~= held.map_values(
                    |value: Value| value@,
                ).insert(columns[i as int].name@, row@[i as int]));
            }
            i += 1;
        }
        proof {
            assert(self@.columns.take(i as int) =~= self@.columns);
        }
        Ok(map)
    }

    /// A copy of every row that `predicate` accepts, with its key,
    /// ascending by key.
    pub fn find<F: Fn(&Row) -> bool>(&self, predicate: F) -> (found: Vec<(Key, Row)>)
        requires
            self.wf(),
            forall|i: int|
                0 <= i < self@.rows.len() ==> call_requires(
                    predicate,
                    (&(#[trigger] self@.rows[i]).1,),
                ),
        ensures
            exists|picks: Seq<int>|
                {
                    &&& #[trigger] is_selection(self@.rows, predicate, picks)
                    &&& found@.len() == picks.len()
                    &&& forall|j: int|
                        0 <= j < picks.len() ==> (#[trigger] found@[j]).0@ == self@.rows[picks[j]].0@
                            && found@[j].1@ == self@.rows[picks[j]].1@
                },
            ascending(found@),
    {
        let mut found: Vec<(Key, Row)> = Vec::new();
        let ghost mut picks: Seq<int> = Seq::empty();
        let mut i: usize = 0;
        while i < self.data.len()
            invariant
                i <= self@.rows.len(),
                self.wf(),
                forall|j: int|
                    0 <= j < self@.rows.len() ==> call_requires(
                        predicate,
                        (&(#[trigger] self@.rows[j]).1,),
                    ),
                found@.len() == picks.len(),
                forall|j: int| 0 <= j < picks.len() ==> 0 <= #[trigger] picks[j] < i,
                forall|j: int, k: int| 0 <= j < k < picks.len() ==> picks[j] < picks[k],
                forall|j: int|
                    0 <= j < i ==> call_ensures(
                        predicate,
                        (&(#[trigger] self@.rows[j]).1,),
                        picks.contains(j),
                    ),
                forall|j: int|
                    0 <= j < picks.len() ==> (#[trigger] found@[j]).0@ == self@.rows[picks[j]].0@
                        && found@[j].1@ == self@.rows[picks[j]].1@,
            decreases self@.rows.len() - i,
        {
            let pair = self.data.pair_at(i);
            let ghost earlier = picks;
            if predicate(&pair.1) {
                found.push((pair.0.clone(), pair.1.clone()));
                proof {
                    picks = picks.push(i as int);
                    assert(picks[picks.len() - 1] == i);
                    assert forall|j: int| 0 <= j < i + 1 implies call_ensures(
                        predicate,
                        (&(#[trigger] self@.rows[j]).1,),
                        picks.contains(j),
                    ) by {
                        if j < i {
                            if earlier.contains(j) {
                                let at = choose|at: int| 0 <= at < earlier.len() && earlier[at] == j;
                                assert(picks[at] == j);
                            }
                        }
                    }
                }
            }
            i += 1;
        }
        proof {
            assert(is_selection(self@.rows, predicate, picks));
        }
        found
    }
}

} // verus!

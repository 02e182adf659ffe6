//! The vocabulary of stored data: values, keys, rows and columns.
use crate::order::{text_before, Comparison, OrderedKey};
use vstd::prelude::*;
use vstd::std_specs::convert::FromSpecImpl;

verus! {

/// A single stored value.
///
/// No variant is ever converted into another.
#[derive(Debug, PartialEq)]
pub enum Value {
    /// The absence of a value.
    Null,
    /// A 64-bit signed integer.
    Integer(i64),
    /// A 64-bit IEEE 754 number, held as its bit pattern. Two such values
    /// are equal when their bit patterns are.
    Float(u64),
    /// A UTF-8 string.
    Text(String),
    /// A truth value.
    Boolean(bool),
    /// Raw bytes.
    Blob(Vec<u8>),
}

/// The model of a [`Value`]: the same variants, over mathematical sequences.
pub enum ValueView {
    Null,
    Integer(i64),
    Float(u64),
    Text(Seq<char>),
    Boolean(bool),
    Blob(Seq<u8>),
}

impl View for Value {
    type V = ValueView;

    open spec fn view(&self) -> ValueView {
        match *self {
            Value::Null => ValueView::Null,
            Value::Integer(i) => ValueView::Integer(i),
            Value::Float(bits) => ValueView::Float(bits),
            Value::Text(s) => ValueView::Text(s@),
            Value::Boolean(b) => ValueView::Boolean(b),
            Value::Blob(bytes) => ValueView::Blob(bytes@),
        }
    }
}

impl DeepView for Value {
    type V = ValueView;

    open spec fn deep_view(&self) -> ValueView {
        self@
    }
}

impl Clone for Value {
    fn clone(&self) -> (copy: Self)
        ensures
            copy@ == self@,
    {
        match self {
            Value::Null => Value::Null,
            Value::Integer(i) => Value::Integer(*i),
            Value::Float(bits) => Value::Float(*bits),
            Value::Text(s) => Value::Text(s.clone()),
            Value::Boolean(b) => Value::Boolean(*b),
            Value::Blob(bytes) => {
                let copy = bytes.clone();
                Value::Blob(copy)
            },
        }
    }
}

/// The identifier of a row within a table.
///
/// Keys are ordered as their strings are: by the bytes of the UTF-8
/// encoding, lexicographically.
#[derive(Debug, PartialEq, Eq, PartialOrd, Ord)]
pub struct Key(pub String);

impl View for Key {
    type V = Seq<char>;

    open spec fn view(&self) -> Seq<char> {
        self.0@
    }
}

impl DeepView for Key {
    type V = Seq<char>;

    open spec fn deep_view(&self) -> Seq<char> {
        self@
    }
}

impl Clone for Key {
    fn clone(&self) -> (copy: Self)
        ensures
            copy == *self,
    {
        Key(self.0.clone())
    }
}

impl<'a> From<&'a str> for Key {
    /// Makes the key that spells `s`.
    fn from(s: &'a str) -> (key: Key)
        ensures
            key@ == s@,
    {
        Key(s.to_owned())
    }
}

impl<'a> FromSpecImpl<&'a str> for Key {
    /// A string slice does not determine which `String` is allocated for
    /// it, only what that string spells: see the contract of `from`.
    open spec fn obeys_from_spec() -> bool {
        false
    }

    open spec fn from_spec(s: &'a str) -> Key {
        arbitrary()
    }
}

impl From<String> for Key {
    /// Makes the key that holds `s`.
    fn from(s: String) -> (key: Key)
        ensures
            key == Key(s),
    {
        Key(s)
    }
}

impl FromSpecImpl<String> for Key {
    open spec fn obeys_from_spec() -> bool {
        true
    }

    open spec fn from_spec(s: String) -> Key {
        Key(s)
    }
}

impl OrderedKey for Key {
    open spec fn before(a: Seq<char>, b: Seq<char>) -> bool {
        text_before(a, b)
    }

    proof fn before_irreflexive(a: Seq<char>) {
        String::before_irreflexive(a);
    }

    proof fn before_transitive(a: Seq<char>, b: Seq<char>, c: Seq<char>) {
        String::before_transitive(a, b, c);
    }

    proof fn before_connected(a: Seq<char>, b: Seq<char>) {
        String::before_connected(a, b);
    }

    fn compare(&self, other: &Self) -> (c: Comparison) {
        self.0.compare(&other.0)
    }

    fn duplicate(&self) -> (copy: Self) {
        self.clone()
    }
}

/// One record of a table: its values, in the order of the table's columns.
#[derive(Debug, PartialEq)]
pub struct Row {
    /// The values, one for each column.
    pub values: Vec<Value>,
}

impl View for Row {
    type V = Seq<ValueView>;

    open spec fn view(&self) -> Seq<ValueView> {
        self.values.deep_view()
    }
}

impl DeepView for Row {
    type V = Seq<ValueView>;

    open spec fn deep_view(&self) -> Seq<ValueView> {
        self@
    }
}

impl Row {
    /// Makes a row of the given values.
    pub fn new(values: Vec<Value>) -> (row: Self)
        ensures
            row.values == values,
    {
        Self { values }
    }
}

impl Clone for Row {
    fn clone(&self) -> (copy: Self)
        ensures
            copy@ == self@,
    {
        let mut values: Vec<Value> = Vec::new();
        let mut i: usize = 0;
        while i < self.values.len()
            invariant
                i <= self.values.len(),
                values.len() == i,
                forall|j: int| 0 <= j < i ==> values@[j]@ == self.values@[j]@,
            decreases self.values.len() - i,
        {
            values.push(self.values[i].clone());
            i += 1;
        }
        Row { values }
    }
}

/// `From::from` of a type from itself, which `into` reaches when it is
/// handed what it is to make: the argument comes back unchanged.
pub assume_specification<T>[ <T as From<T>>::from ](value: T) -> (same: T)
    ensures
        same == value,
;

/// `String::from` on a string slice, which `into` reaches: the string made
/// spells what the slice spells.
pub assume_specification<'a>[ <String as From<&'a str>>::from ](text: &str) -> (made: String)
    ensures
        made@ == text@,
;

/// The type that a column declares for its values.
#[derive(Debug, Clone, Copy, PartialEq, Eq)]
pub enum ColumnType {
    /// 64-bit signed integers.
    Integer,
    /// 64-bit IEEE 754 numbers.
    Float,
    /// UTF-8 strings.
    Text,
    /// Truth values.
    Boolean,
    /// Raw bytes.
    Blob,
}

/// A column of a table: a name and the type of the values it takes.
#[derive(Debug, PartialEq)]
pub struct Column {
    /// The name of the column.
    pub name: String,
    /// The type of its values.
    pub column_type: ColumnType,
}

/// The model of a [`Column`].
pub struct ColumnView {
    pub name: Seq<char>,
    pub column_type: ColumnType,
}

impl View for Column {
    type V = ColumnView;

    open spec fn view(&self) -> ColumnView {
        ColumnView { name: self.name@, column_type: self.column_type }
    }
}

impl DeepView for Column {
    type V = ColumnView;

    open spec fn deep_view(&self) -> ColumnView {
        self@
    }
}

impl Column {
    /// Makes a column; its name is what `name` converts to.
    pub fn new<N: Into<String>>(name: N, column_type: ColumnType) -> (column: Self)
        ensures
            call_ensures(<N as Into<String>>::into, (name,), column.name),
            column.column_type == column_type,
    {
        Self { name: name.into(), column_type }
    }
}

impl Clone for Column {
    fn clone(&self) -> (copy: Self)
        ensures
            copy == *self,
    {
        Column { name: self.name.clone(), column_type: self.column_type }
    }
}

/// Whether a column of type `column_type` takes `value`: the variant is the
/// one that the type names, or the value is `Null`, which every column
/// takes.
pub open spec fn value_fits(column_type: ColumnType, value: ValueView) -> bool {
    match (column_type, value) {
        (_, ValueView::Null) => true,
        (ColumnType::Integer, ValueView::Integer(_)) => true,
        (ColumnType::Float, ValueView::Float(_)) => true,
        (ColumnType::Text, ValueView::Text(_)) => true,
        (ColumnType::Boolean, ValueView::Boolean(_)) => true,
        (ColumnType::Blob, ValueView::Blob(_)) => true,
        _ => false,
    }
}

} // verus!

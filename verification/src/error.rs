//! The errors that the operations of the store report.
use vstd::prelude::*;

verus! {

/// Why an operation was refused. An operation that is refused changes
/// nothing.
#[derive(Debug)]
pub enum DbError {
    /// A table of that name already exists.
    TableExists,
    /// No table has that name.
    TableNotFound,
    /// A row is already stored under that key.
    KeyExists,
    /// No row is stored under that key.
    KeyNotFound,
    /// A value is of another type than its column declares, and is not
    /// `Null`.
    TypeConversionError,
    /// What else was wrong, in words. A row with more or fewer values than
    /// its table has columns is reported so, with the text of
    /// [`arity_message`].
    Other(String),
}

/// The decimal digit for `d`.
pub open spec fn digit(d: nat) -> char {
    if d == 0 {
        '0'
    } else if d == 1 {
        '1'
    } else if d == 2 {
        '2'
    } else if d == 3 {
        '3'
    } else if d == 4 {
        '4'
    } else if d == 5 {
        '5'
    } else if d == 6 {
        '6'
    } else if d == 7 {
        '7'
    } else if d == 8 {
        '8'
    } else {
        '9'
    }
}

/// The decimal numeral for `n`, without leading zeros.
pub open spec fn decimal(n: nat) -> Seq<char>
    decreases n,
{
    if n < 10 {
        seq![digit(n)]
    } else {
        decimal(n / 10).push(digit(n % 10))
    }
}

/// The words that report a row of `found` values for a table of `expected`
/// columns.
pub open spec fn arity_message(expected: nat, found: nat) -> Seq<char> {
    "Expected "@ + decimal(expected) + " values, got "@ + decimal(found)
}

/// The numeral of one digit.
fn digit_text(d: usize) -> (text: &'static str)
    requires
        d < 10,
    ensures
        text@ == seq![digit(d as nat)],
{
    proof {
        reveal_strlit("0");
        reveal_strlit("1");
        reveal_strlit("2");
        reveal_strlit("3");
        reveal_strlit("4");
        reveal_strlit("5");
        reveal_strlit("6");
        reveal_strlit("7");
        reveal_strlit("8");
        reveal_strlit("9");
    }
    let text = if d == 0 {
        "0"
    } else if d == 1 {
        "1"
    } else if d == 2 {
        "2"
    } else if d == 3 {
        "3"
    } else if d == 4 {
        "4"
    } else if d == 5 {
        "5"
    } else if d == 6 {
        "6"
    } else if d == 7 {
        "7"
    } else if d == 8 {
        "8"
    } else {
        "9"
    };
    text
}

/// Writes `n` in decimal at the end of `text`.
fn append_decimal(text: &mut String, n: usize)
    ensures
        final(text)@ == old(text)@ + decimal(n as nat),
    decreases n,
{
    if n >= 10 {
        append_decimal(text, n / 10);
    }
    text.append(digit_text(n % 10));
}

impl DbError {
    /// The error for a row of `found` values where `expected` are due.
    pub fn arity(expected: usize, found: usize) -> (error: DbError)
        ensures
            error matches DbError::Other(text) && text@ == arity_message(
                expected as nat,
                found as nat,
            ),
    {
        let mut text = String::from_str("Expected ");
        append_decimal(&mut text, expected);
        text.append(" values, got ");
        append_decimal(&mut text, found);
        DbError::Other(text)
    }
}

} // verus!

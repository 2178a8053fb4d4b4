//! The failures that parsing a deck can report.
use vstd::prelude::*;

use crate::codec::push_str;
use crate::text::push_char;

verus! {

/// What went wrong while reading, parsing or writing a deck.
#[derive(Debug, PartialEq, Eq)]
pub enum Error {
    /// Reading or writing a file failed; the message of the underlying failure.
    Io(String),
    /// No header line `#<key>:` was found; the key.
    HeaderEntryNotFound(String),
    /// A row holds more fields than the record kind declares:
    /// (fields of the record kind, fields in the row).
    NotEnoughStructFields(usize, usize),
    /// A row holds fewer fields than the record kind declares:
    /// (fields of the record kind, fields in the row).
    TooManyStructFields(usize, usize),
    /// The separator value is neither one character nor a known name; the value.
    UnrecognisedSeparator(String),
}

/// The character of a decimal digit.
pub open spec fn digit_char(d: nat) -> char {
    if d == 0 {
        '0'
    } else if d == 1 {
        '1'
    } else if d == 2 {
        '2'
    } else if d == 3 {
        '3'
    } else if d == 4 {
        '4'
    } else if d == 5 {
        '5'
    } else if d == 6 {
        '6'
    } else if d == 7 {
        '7'
    } else if d == 8 {
        '8'
    } else {
        '9'
    }
}

/// The decimal digits of `n`, without leading zeros.
pub open spec fn decimal(n: nat) -> Seq<char>
    decreases n,
{
    if n < 10 {
        seq![digit_char(n)]
    } else {
        decimal(n / 10) + seq![digit_char(n % 10)]
    }
}

fn digit(d: usize) -> (r: char)
    requires
        d < 10,
    ensures
        r == digit_char(d as nat),
{
    if d == 0 {
        '0'
    } else if d == 1 {
        '1'
    } else if d == 2 {
        '2'
    } else if d == 3 {
        '3'
    } else if d == 4 {
        '4'
    } else if d == 5 {
        '5'
    } else if d == 6 {
        '6'
    } else if d == 7 {
        '7'
    } else if d == 8 {
        '8'
    } else {
        '9'
    }
}

/// Appends the decimal digits of `n` to `s`.
fn push_decimal(s: &mut String, n: usize)
    ensures
        final(s)@ == old(s)@ + decimal(n as nat),
    decreases n,
{
    if n >= 10 {
        push_decimal(s, n / 10);
    }
    push_char(s, digit(n % 10));
    assert(final(s)@ =~= old(s)@ + decimal(n as nat));
}

/// The message describing a count mismatch: the record kind's fields, the
/// relation `rel` and the row's fields.
pub open spec fn count_message(a: usize, rel: Seq<char>, b: usize) -> Seq<char> {
    "Number of struct fields ("@ + decimal(a as nat) + rel + "fields per line in txt ("@
        + decimal(b as nat) + ")"@
}

fn push_count_message(s: &mut String, a: usize, rel: &str, b: usize)
    ensures
        final(s)@ == old(s)@ + count_message(a, rel@, b),
{
    push_str(s, "Number of struct fields (");
    push_decimal(s, a);
    push_str(s, rel);
    push_str(s, "fields per line in txt (");
    push_decimal(s, b);
    push_str(s, ")");
    assert(final(s)@ =~= old(s)@ + count_message(a, rel@, b));
}

impl Error {
    /// A human-readable description of the failure, with the key, counts or
    /// value that it concerns.
    pub fn message(&self) -> (r: String)
        ensures
            match *self {
                Error::Io(m) => r@ == m@,
                Error::HeaderEntryNotFound(k) => r@ == "Header entry not found: "@ + k@,
                Error::NotEnoughStructFields(a, b) => r@ == count_message(a, ") < "@, b),
                Error::TooManyStructFields(a, b) => r@ == count_message(a, ") > "@, b),
                Error::UnrecognisedSeparator(v) => r@ == "Unrecognised separator: "@ + v@,
            },
    {
        let mut r = String::new();
        match self {
            Error::Io(m) => push_str(&mut r, m.as_str()),
            Error::HeaderEntryNotFound(k) => {
                push_str(&mut r, "Header entry not found: ");
                push_str(&mut r, k.as_str());
            },
            Error::NotEnoughStructFields(a, b) => push_count_message(&mut r, *a, ") < ", *b),
            Error::TooManyStructFields(a, b) => push_count_message(&mut r, *a, ") > ", *b),
            Error::UnrecognisedSeparator(v) => {
                push_str(&mut r, "Unrecognised separator: ");
                push_str(&mut r, v.as_str());
            },
        }
        assert(Seq::<char>::empty() + r@ =~= r@);
        r
    }
}

} // verus!

//! The interface every record kind offers: a fixed, ordered list of text fields.
use vstd::prelude::*;

use crate::codec::{decode_spec, join_spec, lemma_decode_encode};
use crate::error::Error;
use crate::markup::strip_markup;

verus! {

/// Every field with its markup stripped.
pub open spec fn strip_fields(fs: Seq<Seq<char>>) -> Seq<Seq<char>> {
    fs.map_values(|f: Seq<char>| strip_markup(f))
}

/// A record kind: a fixed number of text fields in a declared order, which is
/// the order of both parsing and writing.
pub trait Note: Sized {
    /// The number of fields the record kind declares.
    spec fn arity() -> nat;

    /// The field values, in declared order.
    spec fn fields(&self) -> Seq<Seq<char>>;

    /// There are `arity` fields, and at least one.
    proof fn lemma_fields_len(&self)
        ensures
            self.fields().len() == Self::arity(),
            Self::arity() >= 1,
    ;

    /// The record with the markup of every field stripped.
    fn remove_html(self) -> (r: Self)
        ensures
            r.fields() == strip_fields(self.fields()),
    ;

    /// The fields joined by `separator`, in declared order.
    fn into_line(self, separator: char) -> (r: String)
        ensures
            r@ == join_spec(self.fields(), separator),
    ;

    /// The record whose fields are the segments of `line` between separators;
    /// refused unless there are exactly `arity` of them.
    fn from_line(line: &str, separator: char) -> (r: Result<Self, Error>)
        ensures
            match (r, decode_spec(line@, separator, Self::arity())) {
                (Ok(n), Ok(segs)) => n.fields() == segs,
                (Err(e), Err(d)) => e == d,
                _ => false,
            },
    ;
}

/// Decoding the line that a record encodes to gives that record's fields back,
/// when no field holds the separator.
pub proof fn lemma_round_trip<N: Note>(r: &N, separator: char)
    requires
        forall|i: int| 0 <= i < r.fields().len() ==> !(#[trigger] r.fields()[i]).contains(separator),
    ensures
        decode_spec(join_spec(r.fields(), separator), separator, N::arity())
            == Ok::<Seq<Seq<char>>, Error>(r.fields()),
{
    r.lemma_fields_len();
    lemma_decode_encode(r.fields(), separator);
}

} // verus!

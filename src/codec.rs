//! Turning one delimited line into a fixed number of fields and back.
use vstd::prelude::*;

use crate::error::Error;
use crate::text::{chars_of, lemma_split_spec_nonempty, push_char, split_on, split_spec, views_of};

verus! {

/// The fields joined by `sep`, in order.
pub open spec fn join_spec(fields: Seq<Seq<char>>, sep: char) -> Seq<char>
    decreases fields.len(),
{
    if fields.len() == 0 {
        Seq::empty()
    } else if fields.len() == 1 {
        fields[0]
    } else {
        join_spec(fields.drop_last(), sep) + seq![sep] + fields.last()
    }
}

/// What decoding `line` into `arity` fields gives: the segments when their number
/// is `arity`, else the error that names the two counts.
pub open spec fn decode_spec(line: Seq<char>, sep: char, arity: nat) -> Result<Seq<Seq<char>>, Error> {
    let segs = split_spec(line, sep);
    if segs.len() < arity {
        Err(Error::TooManyStructFields(arity as usize, segs.len() as usize))
    } else if segs.len() > arity {
        Err(Error::NotEnoughStructFields(arity as usize, segs.len() as usize))
    } else {
        Ok(segs)
    }
}

/// Appends the characters of `t` to `s`.
pub(crate) fn push_str(s: &mut String, t: &str)
    ensures
        final(s)@ == old(s)@ + t@,
{
    let cs = chars_of(t);
    let mut i: usize = 0;
    while i < cs.len()
        invariant
            i <= cs.len(),
            cs@ == t@,
            s@ == old(s)@ + cs@.take(i as int),
        decreases cs.len() - i,
    {
        push_char(s, cs[i]);
        i = i + 1;
        assert(s@ =~= old(s)@ + cs@.take(i as int));
    }
    assert(cs@.take(i as int) == t@);
}

/// Joins `fields` with `separator` between each two.
pub fn join_fields(fields: &Vec<String>, separator: char) -> (r: String)
    ensures
        r@ == join_spec(views_of(fields@), separator),
{
    let mut r = String::new();
    let mut i: usize = 0;
    while i < fields.len()
        invariant
            i <= fields.len(),
            r@ == join_spec(views_of(fields@).take(i as int), separator),
        decreases fields.len() - i,
    {
        let ghost vs = views_of(fields@);
        if i > 0 {
            push_char(&mut r, separator);
        }
        push_str(&mut r, fields[i].as_str());
        i = i + 1;
        assert(vs.take(i as int).drop_last() =~= vs.take(i - 1));
        assert(vs.take(i as int).last() == fields@[i - 1]@);
        assert(i == 1 ==> vs.take(i as int) =~= seq![fields@[0]@]);
    }
    assert(views_of(fields@).take(i as int) =~= views_of(fields@));
    r
}

/// Splits `line` at `separator` into exactly `arity` fields, or names the mismatch.
pub fn decode_fields(line: &str, separator: char, arity: usize) -> (r: Result<Vec<String>, Error>)
    ensures
        match (r, decode_spec(line@, separator, arity as nat)) {
            (Ok(v), Ok(segs)) => views_of(v@) == segs,
            (Err(e), Err(d)) => e == d,
            _ => false,
        },
{
    let segs = split_on(line, separator);
    let n = segs.len();
    if n < arity {
        Err(Error::TooManyStructFields(arity, n))
    } else if n > arity {
        Err(Error::NotEnoughStructFields(arity, n))
    } else {
        Ok(segs)
    }
}

/// Splitting a string that holds no separator gives that string alone, after
/// whatever the prefix gave.
proof fn lemma_split_append_plain(a: Seq<char>, b: Seq<char>, sep: char)
    requires
        !b.contains(sep),
    ensures
        split_spec(a + b, sep) == ({
            let p = split_spec(a, sep);
            p.update(p.len() - 1, p.last() + b)
        }),
    decreases b.len(),
{
    lemma_split_spec_nonempty(a, sep);
    if b.len() == 0 {
        assert(a + b =~= a);
        let p = split_spec(a, sep);
        assert(p.update(p.len() - 1, p.last() + b) =~= p);
    } else {
        let b0 = b.drop_last();
        assert(!b0.contains(sep)) by {
            if b0.contains(sep) {
                let k = choose|k: int| 0 <= k < b0.len() && b0[k] == sep;
                assert(b[k] == sep);
            }
        }
        lemma_split_append_plain(a, b0, sep);
        assert((a + b).drop_last() =~= a + b0);
        assert((a + b).last() == b.last());
        assert(b.last() != sep) by {
            assert(b[b.len() - 1] == b.last());
        }
        let p = split_spec(a, sep);
        assert(p.last() + b =~= (p.last() + b0).push(b.last()));
        assert(split_spec(a + b, sep) =~= p.update(p.len() - 1, p.last() + b));
    }
}

/// Splitting a string with no separator gives that string alone.
proof fn lemma_split_plain(b: Seq<char>, sep: char)
    requires
        !b.contains(sep),
    ensures
        split_spec(b, sep) == seq![b],
{
    lemma_split_append_plain(Seq::empty(), b, sep);
    assert(Seq::<char>::empty() + b =~= b);
    assert(seq![Seq::<char>::empty()].update(0, Seq::<char>::empty() + b) =~= seq![b]);
}

/// Splitting at `sep` undoes joining with `sep`, when no field holds `sep`.
pub proof fn lemma_split_join(fields: Seq<Seq<char>>, sep: char)
    requires
        fields.len() >= 1,
        forall|i: int| 0 <= i < fields.len() ==> !(#[trigger] fields[i]).contains(sep),
    ensures
        split_spec(join_spec(fields, sep), sep) == fields,
    decreases fields.len(),
{
    if fields.len() == 1 {
        lemma_split_plain(fields[0], sep);
        assert(fields =~= seq![fields[0]]);
    } else {
        let init = fields.drop_last();
        assert forall|i: int| 0 <= i < init.len() implies !(#[trigger] init[i]).contains(sep) by {
            assert(init[i] == fields[i]);
        }
        lemma_split_join(init, sep);
        let a = join_spec(init, sep) + seq![sep];
        assert(a.drop_last() =~= join_spec(init, sep));
        lemma_split_spec_nonempty(join_spec(init, sep), sep);
        assert(split_spec(a, sep) == init.push(Seq::empty()));
        assert(!fields[fields.len() - 1].contains(sep));
        lemma_split_append_plain(a, fields.last(), sep);
        assert(Seq::<char>::empty() + fields.last() =~= fields.last());
        assert(init.push(Seq::empty()).update(init.len() as int, fields.last()) =~= fields);
    }
}

/// Decoding what was encoded gives the same fields back, when no field holds the
/// separator and their number is the arity.
pub proof fn lemma_decode_encode(fields: Seq<Seq<char>>, sep: char)
    requires
        fields.len() >= 1,
        forall|i: int| 0 <= i < fields.len() ==> !(#[trigger] fields[i]).contains(sep),
    ensures
        decode_spec(join_spec(fields, sep), sep, fields.len()) == Ok::<Seq<Seq<char>>, Error>(fields),
{
    lemma_split_join(fields, sep);
}

/// A line decodes into `arity` fields exactly when it has `arity` segments; with
/// fewer segments the error is `TooManyStructFields`, with more `NotEnoughStructFields`.
pub proof fn lemma_decode_arity(line: Seq<char>, sep: char, arity: nat)
    ensures
        split_spec(line, sep).len() < arity ==> decode_spec(line, sep, arity) is Err
            && decode_spec(line, sep, arity)->Err_0 is TooManyStructFields,
        split_spec(line, sep).len() > arity ==> decode_spec(line, sep, arity) is Err
            && decode_spec(line, sep, arity)->Err_0 is NotEnoughStructFields,
        split_spec(line, sep).len() == arity ==> decode_spec(line, sep, arity) is Ok,
{
}

} // verus!

//! A whole deck file: its header and its rows, read from text and written back.
use vstd::prelude::*;

use crate::codec::{decode_spec, join_spec, push_str};
use crate::error::Error;
use crate::note::Note;
use crate::parse::{
    entry_prefix, find_entry, header_spec, is_header_line, separator_key, separator_of,
    terminated, FieldInfo,
};
use crate::text::{chars_of, lines_of, lines_spec, push_char, str_lt, views_of};

verus! {

/// The separator of a deck file and its header block, kept for writing.
pub struct Header {
    pub separator: char,
    pub header: String,
}

/// A deck file: its header and its records.
pub struct File<N: Note> {
    pub header: Header,
    pub notes: Vec<N>,
}

/// The lines of a file after its leading header lines.
pub open spec fn body_lines(ls: Seq<Seq<char>>) -> Seq<Seq<char>>
    decreases ls.len(),
{
    if ls.len() > 0 && is_header_line(ls[0]) {
        body_lines(ls.drop_first())
    } else {
        ls
    }
}

/// The separator that the `#separator:` line of `data` declares, if there is a
/// recognised one.
pub open spec fn declared_separator(data: Seq<char>) -> Option<char> {
    match find_entry(lines_spec(data), entry_prefix(separator_key())) {
        Some(v) => separator_of(v),
        None => None,
    }
}

/// Whether `e` is the failure to find a recognised separator in `data`.
pub open spec fn separator_failure(data: Seq<char>, e: Error) -> bool {
    let entry = find_entry(lines_spec(data), entry_prefix(separator_key()));
    match e {
        Error::HeaderEntryNotFound(k) => k@ == separator_key() && entry is None,
        Error::UnrecognisedSeparator(v) => entry == Some(v@) && separator_of(v@) is None,
        _ => false,
    }
}

/// Whether `sorted` holds the lines of `ls`, in the order of `<` on strings.
pub open spec fn sorted_version(sorted: Seq<Seq<char>>, ls: Seq<Seq<char>>) -> bool {
    &&& sorted.to_multiset() == ls.to_multiset()
    &&& forall|i: int, j: int| 0 <= i < j < sorted.len() ==> !str_lt(sorted[j], sorted[i])
}

/// Whether every line decodes, into the records of `notes` in the same order.
pub open spec fn decodes_to<N: Note>(lines: Seq<Seq<char>>, sep: char, notes: Seq<N>) -> bool {
    &&& lines.len() == notes.len()
    &&& forall|i: int|
        0 <= i < lines.len() ==> decode_spec(#[trigger] lines[i], sep, N::arity()) == Ok::<
            Seq<Seq<char>>,
            Error,
        >(notes[i].fields())
}

/// Whether the first line that does not decode fails with `e`.
pub open spec fn fails_with<N: Note>(lines: Seq<Seq<char>>, sep: char, e: Error) -> bool {
    exists|k: int|
        #![trigger lines[k]]
        0 <= k < lines.len() && (forall|j: int|
            0 <= j < k ==> (#[trigger] decode_spec(lines[j], sep, N::arity())) is Ok) && decode_spec(
            lines[k],
            sep,
            N::arity(),
        ) == Err::<Seq<Seq<char>>, Error>(e)
}

/// The text of a record line by line, each ended by `\n`.
pub open spec fn note_lines<N: Note>(notes: Seq<N>, sep: char) -> Seq<Seq<char>> {
    notes.map_values(|n: N| join_spec(n.fields(), sep))
}

/// Relies on slice::sort_unstable on strings: the same strings afterwards, in
/// the order of `Ord for str`, which compares UTF-8 bytes lexicographically.
#[verifier::external_body]
fn sort_strings(v: &mut Vec<String>)
    ensures
        views_of(final(v)@).to_multiset() == views_of(old(v)@).to_multiset(),
        forall|i: int, j: int|
            0 <= i < j < final(v).len() ==> !str_lt(final(v)@[j]@, final(v)@[i]@),
{
    v.sort_unstable();
}

/// The lines of `data` after its leading header lines.
pub fn body_of(data: &str) -> (r: Vec<String>)
    ensures
        views_of(r@) == body_lines(lines_spec(data@)),
{
    let mut lines = lines_of(data);
    let ghost ls = views_of(lines@);
    let mut i: usize = 0;
    assert(ls.skip(0) =~= ls);
    while i < lines.len()
        invariant
            i <= lines.len(),
            ls == views_of(lines@),
            ls == lines_spec(data@),
            body_lines(ls.skip(i as int)) == body_lines(ls),
        ensures
            body_lines(ls.skip(i as int)) == ls.skip(i as int),
        decreases lines.len() - i,
    {
        let ghost rest = ls.skip(i as int);
        assert(rest[0] == lines@[i as int]@);
        let cs = chars_of(lines[i].as_str());
        if cs.len() == 0 || cs[0] != '#' {
            assert(body_lines(rest) == rest);
            break;
        }
        assert(rest.drop_first() =~= ls.skip(i + 1));
        i = i + 1;
    }
    let r = lines.split_off(i);
    assert(views_of(r@) =~= ls.skip(i as int));
    r
}

/// Decodes every line into a record, stopping at the first that does not decode.
pub fn parse_lines<N: Note>(lines: &Vec<String>, separator: char) -> (r: Result<Vec<N>, Error>)
    ensures
        match r {
            Ok(v) => decodes_to(views_of(lines@), separator, v@),
            Err(e) => fails_with::<N>(views_of(lines@), separator, e),
        },
{
    let ghost ls = views_of(lines@);
    let mut out: Vec<N> = Vec::new();
    let mut i: usize = 0;
    while i < lines.len()
        invariant
            i <= lines.len(),
            ls == views_of(lines@),
            decodes_to(ls.take(i as int), separator, out@),
        decreases lines.len() - i,
    {
        assert(ls[i as int] == lines@[i as int]@);
        match N::from_line(lines[i].as_str(), separator) {
            Ok(n) => {
                out.push(n);
                i = i + 1;
                assert forall|j: int| 0 <= j < i implies decode_spec(
                    #[trigger] ls.take(i as int)[j],
                    separator,
                    N::arity(),
                ) == Ok::<Seq<Seq<char>>, Error>(out@[j].fields()) by {
                    if j < i - 1 {
                        assert(ls.take(i as int)[j] == ls.take(i - 1)[j]);
                    }
                }
            },
            Err(e) => {
                assert forall|j: int| 0 <= j < i implies (#[trigger] decode_spec(ls[j], separator, N::arity())) is Ok by {
                    assert(ls.take(i as int)[j] == ls[j]);
                }
                return Err(e);
            },
        }
    }
    assert(ls.take(i as int) =~= ls);
    Ok(out)
}

proof fn lemma_terminated_push(ls: Seq<Seq<char>>, l: Seq<char>)
    ensures
        terminated(ls.push(l)) == terminated(ls) + l + seq!['\n'],
    decreases ls.len(),
{
    if ls.len() == 0 {
        assert(ls.push(l)[0] == l);
        assert(ls.push(l).drop_first() =~= Seq::<Seq<char>>::empty());
        assert(terminated(Seq::<Seq<char>>::empty()) == Seq::<char>::empty());
        assert(terminated(ls.push(l)) =~= l + seq!['\n']);
        assert(terminated(ls) + l + seq!['\n'] =~= l + seq!['\n']);
    } else {
        lemma_terminated_push(ls.drop_first(), l);
        assert(ls.push(l).drop_first() =~= ls.drop_first().push(l));
        assert(terminated(ls.push(l)) =~= terminated(ls) + l + seq!['\n']);
    }
}

impl<N: Note> File<N> {
    /// Reads a deck from the text of its file: the header, the declared
    /// separator, and one record for each line after the header, the lines
    /// taken in sorted order.
    pub fn parse_text(data: &str) -> (r: Result<File<N>, Error>)
        ensures
            match r {
                Ok(f) => {
                    &&& f.header.header@ == header_spec(data@)
                    &&& declared_separator(data@) == Some(f.header.separator)
                    &&& exists|sorted: Seq<Seq<char>>|
                        #[trigger] sorted_version(sorted, body_lines(lines_spec(data@)))
                            && decodes_to(sorted, f.header.separator, f.notes@)
                },
                Err(e) => separator_failure(data@, e) || match declared_separator(data@) {
                    Some(sep) => exists|sorted: Seq<Seq<char>>|
                        #[trigger] sorted_version(sorted, body_lines(lines_spec(data@)))
                            && fails_with::<N>(sorted, sep, e),
                    None => false,
                },
            },
    {
        let info = FieldInfo::from_text(data)?;
        let separator = info.separator;
        let mut lines = body_of(data);
        sort_strings(&mut lines);
        let ghost sorted = views_of(lines@);
        assert(sorted_version(sorted, body_lines(lines_spec(data@))));
        let notes = parse_lines::<N>(&lines, separator)?;
        Ok(File { header: Header { separator, header: info.header }, notes })
    }

    /// The text of the deck: the header, then each record's line ended by `\n`.
    pub fn to_text(self) -> (r: String)
        ensures
            r@ == self.header.header@ + terminated(note_lines(self.notes@, self.header.separator)),
    {
        let separator = self.header.separator;
        let mut r = self.header.header;
        let ghost h = r@;
        let ghost all = note_lines(self.notes@, separator);
        assert(h + terminated(Seq::<Seq<char>>::empty()) =~= h);
        for note in it: self.notes.into_iter()
            invariant
                it.seq() == self.notes@,
                all == note_lines(self.notes@, separator),
                r@ == h + terminated(all.take(it.index() as int)),
        {
            let ghost i = it.index();
            let line = note.into_line(separator);
            assert(line@ == all[i as int]);
            proof {
                lemma_terminated_push(all.take(i as int), line@);
                assert(all.take(i as int).push(line@) =~= all.take(i + 1));
            }
            push_str(&mut r, line.as_str());
            push_char(&mut r, '\n');
            assert(r@ =~= h + terminated(all.take(i + 1)));
        }
        assert(all.take(all.len() as int) =~= all);
        r
    }
}

} // verus!

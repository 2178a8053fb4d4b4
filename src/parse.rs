//! The header of a deck file: its leading `#` lines and the separator they declare.
use vstd::prelude::*;

use crate::codec::push_str;
use crate::error::Error;
use crate::text::{chars_of, lines_of, lines_spec, push_char, views_of};

verus! {

/// The separator of a file and its header, as read from the file's text.
pub struct FieldInfo {
    pub separator: char,
    pub header: String,
}

/// Whether a line is a header line.
pub open spec fn is_header_line(l: Seq<char>) -> bool {
    l.len() > 0 && l[0] == '#'
}

/// The longest run of header lines at the start of `ls`.
pub open spec fn header_lines(ls: Seq<Seq<char>>) -> Seq<Seq<char>>
    decreases ls.len(),
{
    if ls.len() > 0 && is_header_line(ls[0]) {
        seq![ls[0]] + header_lines(ls.drop_first())
    } else {
        Seq::empty()
    }
}

/// The lines of `ls`, each followed by `\n`.
pub open spec fn terminated(ls: Seq<Seq<char>>) -> Seq<char>
    decreases ls.len(),
{
    if ls.len() == 0 {
        Seq::empty()
    } else {
        ls[0] + seq!['\n'] + terminated(ls.drop_first())
    }
}

/// The header of `data`: its leading `#` lines, each ended by `\n`.
pub open spec fn header_spec(data: Seq<char>) -> Seq<char> {
    terminated(header_lines(lines_spec(data)))
}

/// What follows `p` on the first line of `ls` that starts with `p`.
pub open spec fn find_entry(ls: Seq<Seq<char>>, p: Seq<char>) -> Option<Seq<char>>
    decreases ls.len(),
{
    if ls.len() == 0 {
        None
    } else if p.is_prefix_of(ls[0]) {
        Some(ls[0].skip(p.len() as int))
    } else {
        find_entry(ls.drop_first(), p)
    }
}

/// The prefix of the header line that holds `key`: `#<key>:`.
pub open spec fn entry_prefix(key: Seq<char>) -> Seq<char> {
    seq!['#'] + key + seq![':']
}

/// The separator that a recognised name stands for.
pub open spec fn named_separator(name: Seq<char>) -> Option<char> {
    if name == seq!['t', 'a', 'b'] {
        Some('\t')
    } else if name == seq!['s', 'p', 'a', 'c', 'e'] {
        Some(' ')
    } else if name == seq!['c', 'o', 'm', 'm', 'a'] {
        Some(',')
    } else if name == seq!['s', 'e', 'm', 'i', 'c', 'o', 'l', 'o', 'n'] {
        Some(';')
    } else if name == seq!['p', 'i', 'p', 'e'] {
        Some('|')
    } else if name == seq!['c', 'o', 'l', 'o', 'n'] {
        Some(':')
    } else {
        None
    }
}

/// The lower-case form of `s`, as `str::to_lowercase` gives it.
pub uninterp spec fn lower_of(s: Seq<char>) -> Seq<char>;

/// The separator that the value of a `#separator:` line declares: the value
/// itself when it is one character, else the separator its lower-case form names.
pub open spec fn separator_of(value: Seq<char>) -> Option<char> {
    if value.len() == 1 {
        Some(value[0])
    } else {
        named_separator(lower_of(value))
    }
}

/// Relies on str::to_lowercase: the result depends on the characters alone.
#[verifier::external_body]
fn lowercase(s: &str) -> (r: String)
    ensures
        r@ == lower_of(s@),
{
    s.to_lowercase()
}

/// Whether two strings hold the same characters.
fn same_chars(a: &str, b: &str) -> (r: bool)
    ensures
        r == (a@ == b@),
{
    let x = chars_of(a);
    let y = chars_of(b);
    if x.len() != y.len() {
        return false;
    }
    let mut i: usize = 0;
    while i < x.len()
        invariant
            i <= x.len(),
            x.len() == y.len(),
            x@ == a@,
            y@ == b@,
            forall|j: int| 0 <= j < i ==> x@[j] == y@[j],
        decreases x.len() - i,
    {
        if x[i] != y[i] {
            return false;
        }
        i = i + 1;
    }
    assert(x@ =~= y@);
    true
}

/// What follows `p` in `line`, when `line` starts with `p`.
fn after_prefix(line: &str, p: &Vec<char>) -> (r: Option<String>)
    ensures
        match r {
            Some(rest) => p@.is_prefix_of(line@) && rest@ == line@.skip(p@.len() as int),
            None => !p@.is_prefix_of(line@),
        },
{
    let cs = chars_of(line);
    if cs.len() < p.len() {
        return None;
    }
    let mut i: usize = 0;
    while i < p.len()
        invariant
            i <= p.len() <= cs.len(),
            cs@ == line@,
            forall|j: int| 0 <= j < i ==> p@[j] == cs@[j],
        decreases p.len() - i,
    {
        if p[i] != cs[i] {
            return None;
        }
        i = i + 1;
    }
    let mut rest = String::new();
    let mut k: usize = p.len();
    while k < cs.len()
        invariant
            p.len() <= k <= cs.len(),
            cs@ == line@,
            rest@ == cs@.subrange(p.len() as int, k as int),
        decreases cs.len() - k,
    {
        push_char(&mut rest, cs[k]);
        k = k + 1;
        assert(rest@ =~= cs@.subrange(p.len() as int, k as int));
    }
    assert(rest@ =~= line@.skip(p@.len() as int));
    Some(rest)
}

/// The leading `#` lines of `data`, each followed by `\n`.
pub fn extract_header(data: &str) -> (r: String)
    ensures
        r@ == header_spec(data@),
{
    let lines = lines_of(data);
    let ghost ls = views_of(lines@);
    let mut r = String::new();
    let mut i: usize = 0;
    assert(ls.skip(0) =~= ls);
    assert(r@ + terminated(header_lines(ls)) =~= terminated(header_lines(ls)));
    while i < lines.len()
        invariant
            i <= lines.len(),
            ls == views_of(lines@),
            ls == lines_spec(data@),
            r@ + terminated(header_lines(ls.skip(i as int))) == terminated(header_lines(ls)),
        decreases lines.len() - i,
    {
        let line = lines[i].as_str();
        let ghost rest = ls.skip(i as int);
        assert(rest[0] == line@);
        let cs = chars_of(line);
        if cs.len() == 0 || cs[0] != '#' {
            assert(header_lines(rest) == Seq::<Seq<char>>::empty());
            assert(terminated(Seq::<Seq<char>>::empty()) == Seq::<char>::empty());
            assert(r@ + Seq::<char>::empty() =~= r@);
            return r;
        }
        assert(rest.drop_first() =~= ls.skip(i + 1));
        assert(header_lines(rest) == seq![line@] + header_lines(ls.skip(i + 1)));
        assert((seq![line@] + header_lines(ls.skip(i + 1))).drop_first() =~= header_lines(ls.skip(i + 1)));
        let ghost before = r@;
        push_str(&mut r, line);
        push_char(&mut r, '\n');
        assert(r@ + terminated(header_lines(ls.skip(i + 1))) =~= before + terminated(header_lines(rest)));
        i = i + 1;
    }
    assert(ls.skip(i as int) =~= Seq::<Seq<char>>::empty());
    assert(r@ + Seq::<char>::empty() =~= r@);
    r
}

/// The rest of the first line of `data` that starts with `#<key>:`.
pub fn find_header_entry(data: &str, key: &str) -> (r: Result<String, Error>)
    ensures
        match (r, find_entry(lines_spec(data@), entry_prefix(key@))) {
            (Ok(v), Some(e)) => v@ == e,
            (Err(Error::HeaderEntryNotFound(k)), None) => k@ == key@,
            _ => false,
        },
{
    let mut p: Vec<char> = Vec::new();
    p.push('#');
    let kc = chars_of(key);
    let mut j: usize = 0;
    while j < kc.len()
        invariant
            j <= kc.len(),
            kc@ == key@,
            p@ == seq!['#'] + kc@.take(j as int),
        decreases kc.len() - j,
    {
        p.push(kc[j]);
        j = j + 1;
        assert(p@ =~= seq!['#'] + kc@.take(j as int));
    }
    p.push(':');
    assert(p@ =~= entry_prefix(key@));
    let lines = lines_of(data);
    let ghost ls = views_of(lines@);
    let mut i: usize = 0;
    assert(ls.skip(0) =~= ls);
    while i < lines.len()
        invariant
            i <= lines.len(),
            ls == views_of(lines@),
            ls == lines_spec(data@),
            p@ == entry_prefix(key@),
            find_entry(ls.skip(i as int), p@) == find_entry(ls, p@),
        decreases lines.len() - i,
    {
        let ghost rest = ls.skip(i as int);
        assert(rest[0] == lines@[i as int]@);
        assert(rest.drop_first() =~= ls.skip(i + 1));
        match after_prefix(lines[i].as_str(), &p) {
            Some(v) => {
                return Ok(v);
            },
            None => {},
        }
        i = i + 1;
    }
    assert(ls.skip(i as int) =~= Seq::<Seq<char>>::empty());
    Err(Error::HeaderEntryNotFound(key.to_owned()))
}

/// The separator a recognised name stands for: `tab`, `space`, `comma`,
/// `semicolon`, `pipe` or `colon`, exactly in these letters.
pub fn separator_named(name: &str) -> (r: Option<char>)
    ensures
        r == named_separator(name@),
{
    proof {
        reveal_strlit("tab");
        reveal_strlit("space");
        reveal_strlit("comma");
        reveal_strlit("semicolon");
        reveal_strlit("pipe");
        reveal_strlit("colon");
    }
    if same_chars(name, "tab") {
        assert("tab"@ =~= seq!['t', 'a', 'b']);
        Some('\t')
    } else if same_chars(name, "space") {
        assert("space"@ =~= seq!['s', 'p', 'a', 'c', 'e']);
        Some(' ')
    } else if same_chars(name, "comma") {
        assert("comma"@ =~= seq!['c', 'o', 'm', 'm', 'a']);
        Some(',')
    } else if same_chars(name, "semicolon") {
        assert("semicolon"@ =~= seq!['s', 'e', 'm', 'i', 'c', 'o', 'l', 'o', 'n']);
        Some(';')
    } else if same_chars(name, "pipe") {
        assert("pipe"@ =~= seq!['p', 'i', 'p', 'e']);
        Some('|')
    } else if same_chars(name, "colon") {
        assert("colon"@ =~= seq!['c', 'o', 'l', 'o', 'n']);
        Some(':')
    } else {
        assert("tab"@ =~= seq!['t', 'a', 'b']);
        assert("space"@ =~= seq!['s', 'p', 'a', 'c', 'e']);
        assert("comma"@ =~= seq!['c', 'o', 'm', 'm', 'a']);
        assert("semicolon"@ =~= seq!['s', 'e', 'm', 'i', 'c', 'o', 'l', 'o', 'n']);
        assert("pipe"@ =~= seq!['p', 'i', 'p', 'e']);
        assert("colon"@ =~= seq!['c', 'o', 'l', 'o', 'n']);
        None
    }
}

/// The separator that `value` declares: itself when it is one character, else
/// the one that its lower-case form names; any other value is refused.
pub fn parse_separator(value: &str) -> (r: Result<char, Error>)
    ensures
        match r {
            Ok(c) => separator_of(value@) == Some(c),
            Err(Error::UnrecognisedSeparator(v)) => separator_of(value@) is None && v@ == value@,
            _ => false,
        },
{
    let cs = chars_of(value);
    if cs.len() == 1 {
        return Ok(cs[0]);
    }
    let lowered = lowercase(value);
    match separator_named(lowered.as_str()) {
        Some(c) => Ok(c),
        None => Err(Error::UnrecognisedSeparator(value.to_owned())),
    }
}

impl FieldInfo {
    /// Reads the header and the declared separator from the text of a file.
    pub fn from_text(data: &str) -> (r: Result<FieldInfo, Error>)
        ensures
            match r {
                Ok(info) => {
                    &&& info.header@ == header_spec(data@)
                    &&& find_entry(lines_spec(data@), entry_prefix(separator_key())) matches Some(v)
                    &&& separator_of(v) == Some(info.separator)
                },
                Err(Error::HeaderEntryNotFound(k)) => {
                    &&& k@ == separator_key()
                    &&& find_entry(lines_spec(data@), entry_prefix(separator_key())) is None
                },
                Err(Error::UnrecognisedSeparator(v)) => {
                    &&& find_entry(lines_spec(data@), entry_prefix(separator_key())) == Some(v@)
                    &&& separator_of(v@) is None
                },
                _ => false,
            },
    {
        let header = extract_header(data);
        proof {
            reveal_strlit("separator");
        }
        let key = "separator";
        assert(key@ =~= separator_key());
        let value = find_header_entry(data, key)?;
        let separator = parse_separator(value.as_str())?;
        Ok(FieldInfo { separator, header })
    }
}

/// The key of the header line that declares the separator.
pub open spec fn separator_key() -> Seq<char> {
    seq!['s', 'e', 'p', 'a', 'r', 'a', 't', 'o', 'r']
}

} // verus!

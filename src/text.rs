//! Character-level helpers on strings and their models.
use vstd::prelude::*;

verus! {

/// The segments of `s` between occurrences of `sep`, in order; always at least one.
pub open spec fn split_spec(s: Seq<char>, sep: char) -> Seq<Seq<char>>
    decreases s.len(),
{
    if s.len() == 0 {
        seq![Seq::empty()]
    } else {
        let init = split_spec(s.drop_last(), sep);
        if s.last() == sep {
            init.push(Seq::empty())
        } else {
            init.update(init.len() - 1, init.last().push(s.last()))
        }
    }
}

/// The models of a vector of strings.
pub open spec fn views_of(v: Seq<String>) -> Seq<Seq<char>> {
    v.map_values(|s: String| s@)
}

pub proof fn lemma_split_spec_nonempty(s: Seq<char>, sep: char)
    ensures
        split_spec(s, sep).len() >= 1,
    decreases s.len(),
{
    if s.len() > 0 {
        lemma_split_spec_nonempty(s.drop_last(), sep);
    }
}

/// Relies on String::push: the character is appended at the end.
#[verifier::external_body]
pub(crate) fn push_char(s: &mut String, c: char)
    ensures
        final(s)@ == old(s)@.push(c),
{
    s.push(c);
}

/// The characters of `s`, in order.
pub fn chars_of(s: &str) -> (r: Vec<char>)
    ensures
        r@ == s@,
{
    let mut r: Vec<char> = Vec::new();
    for c in it: s.chars()
        invariant
            r@ == it.seq().take(it.index() as int),
    {
        r.push(c);
    }
    r
}

/// Splits `s` at every occurrence of `sep`.
pub fn split_on(s: &str, sep: char) -> (r: Vec<String>)
    ensures
        views_of(r@) == split_spec(s@, sep),
{
    let cs = chars_of(s);
    let mut done: Vec<String> = Vec::new();
    let mut cur = String::new();
    let mut i: usize = 0;
    while i < cs.len()
        invariant
            i <= cs.len(),
            cs@ == s@,
            views_of(done@).push(cur@) == split_spec(cs@.take(i as int), sep),
        decreases cs.len() - i,
    {
        let c = cs[i];
        assert(cs@.take(i + 1).drop_last() == cs@.take(i as int));
        if c == sep {
            let finished = cur;
            done.push(finished);
            cur = String::new();
        } else {
            push_char(&mut cur, c);
        }
        i = i + 1;
        assert(views_of(done@).push(cur@) =~= split_spec(cs@.take(i as int), sep));
    }
    assert(cs@.take(cs@.len() as int) == s@);
    done.push(cur);
    assert(views_of(done@) =~= split_spec(s@, sep));
    done
}

/// The lines of `s` as `str::lines` yields them: split at `\n`, a `\r` before a
/// `\n` dropped, and no empty last line after a final `\n`.
pub open spec fn lines_spec(s: Seq<char>) -> Seq<Seq<char>> {
    let parts = split_spec(s, '\n');
    let body = strip_all(parts.drop_last());
    if parts.last().len() == 0 {
        body
    } else {
        body.push(parts.last())
    }
}

/// Each line of `ls` without its final carriage return.
pub open spec fn strip_all(ls: Seq<Seq<char>>) -> Seq<Seq<char>> {
    ls.map_values(|l: Seq<char>| strip_cr(l))
}

/// `l` without one final carriage return.
pub open spec fn strip_cr(l: Seq<char>) -> Seq<char> {
    if l.len() > 0 && l.last() == '\r' {
        l.drop_last()
    } else {
        l
    }
}

fn without_cr(l: String) -> (r: String)
    ensures
        r@ == strip_cr(l@),
{
    let cs = chars_of(l.as_str());
    if cs.len() > 0 && cs[cs.len() - 1] == '\r' {
        let mut r = String::new();
        let mut i: usize = 0;
        while i + 1 < cs.len()
            invariant
                i + 1 <= cs.len(),
                r@ == cs@.take(i as int),
            decreases cs.len() - i,
        {
            push_char(&mut r, cs[i]);
            i = i + 1;
            assert(r@ =~= cs@.take(i as int));
        }
        assert(r@ =~= l@.drop_last());
        r
    } else {
        l
    }
}

/// The lines of `s`, as `str::lines` gives them.
pub fn lines_of(s: &str) -> (r: Vec<String>)
    ensures
        views_of(r@) == lines_spec(s@),
{
    let mut parts = split_on(s, '\n');
    proof {
        lemma_split_spec_nonempty(s@, '\n');
    }
    let ghost all = views_of(parts@);
    let last = parts.pop().unwrap();
    let ghost body_parts = views_of(parts@);
    assert(body_parts =~= all.drop_last());
    assert(last@ == all.last());
    let mut r: Vec<String> = Vec::new();
    let mut i: usize = 0;
    while i < parts.len()
        invariant
            i <= parts.len(),
            views_of(parts@) == body_parts,
            body_parts == all.drop_last(),
            all == split_spec(s@, '\n'),
            last@ == all.last(),
            views_of(r@) == strip_all(body_parts.take(i as int)),
        decreases parts.len() - i,
    {
        let line = parts[i].clone();
        assert(line@ == body_parts[i as int]);
        let stripped = without_cr(line);
        let ghost before = r@;
        r.push(stripped);
        i = i + 1;
        assert(views_of(r@) =~= views_of(before).push(stripped@));
        assert(strip_all(body_parts.take(i as int)) =~= strip_all(body_parts.take(i - 1)).push(
            strip_cr(body_parts[i - 1]),
        ));
    }
    assert(body_parts.take(i as int) == body_parts);
    let ghost before = r@;
    if !last.as_str().is_empty() {
        r.push(last);
        assert(views_of(r@) =~= views_of(before).push(all.last()));
    }
    assert(views_of(r@) =~= lines_spec(s@));
    r
}

/// Whether `a` comes before `b` in the byte order of their UTF-8 forms, the
/// order of `<` on strings.
pub open spec fn bytes_lt(a: Seq<u8>, b: Seq<u8>) -> bool
    decreases a.len(),
{
    if b.len() == 0 {
        false
    } else if a.len() == 0 {
        true
    } else if a[0] != b[0] {
        a[0] < b[0]
    } else {
        bytes_lt(a.drop_first(), b.drop_first())
    }
}

/// Whether string `a` is less than string `b`.
pub open spec fn str_lt(a: Seq<char>, b: Seq<char>) -> bool {
    bytes_lt(vstd::utf8::encode_utf8(a), vstd::utf8::encode_utf8(b))
}

} // verus!

//! Removal of HTML-like markup from a field.
use vstd::prelude::*;

use crate::text::{chars_of, push_char};

verus! {

/// Whether a `>` comes before any `\n` in `t`: a tag opened just before `t` closes.
pub open spec fn closes(t: Seq<char>) -> bool
    decreases t.len(),
{
    t.len() > 0 && t[0] != '\n' && (t[0] == '>' || closes(t.drop_first()))
}

/// The number of characters of `t` before its first `>` or `\n`.
pub open spec fn stop(t: Seq<char>) -> nat
    decreases t.len(),
{
    if t.len() == 0 || t[0] == '>' || t[0] == '\n' {
        0
    } else {
        1 + stop(t.drop_first())
    }
}

/// `s` with every tag removed: scanning from the left, each `<` that a `>` follows
/// on the same line starts a tag, which ends at the first such `>`.
pub open spec fn strip_tags(s: Seq<char>) -> Seq<char>
    decreases s.len(),
{
    if s.len() == 0 {
        s
    } else if s[0] == '<' && closes(s.drop_first()) && stop(s.drop_first()) + 2 <= s.len() {
        strip_tags(s.skip(stop(s.drop_first()) + 2int))
    } else {
        seq![s[0]] + strip_tags(s.drop_first())
    }
}

/// The entity of a non-breaking space.
pub open spec fn nbsp() -> Seq<char> {
    seq!['&', 'n', 'b', 's', 'p', ';']
}

/// Whether `s` holds the non-breaking-space entity.
pub open spec fn has_nbsp(s: Seq<char>) -> bool
    decreases s.len(),
{
    s.len() >= 6 && (s.take(6) == nbsp() || has_nbsp(s.drop_first()))
}

/// `s` with every non-breaking-space entity removed, scanning from the left.
pub open spec fn remove_nbsp(s: Seq<char>) -> Seq<char>
    decreases s.len(),
{
    if s.len() == 0 {
        s
    } else if s.len() >= 6 && s.take(6) == nbsp() {
        remove_nbsp(s.skip(6))
    } else {
        seq![s[0]] + remove_nbsp(s.drop_first())
    }
}

/// `s` without any double quote.
pub open spec fn remove_quotes(s: Seq<char>) -> Seq<char>
    decreases s.len(),
{
    if s.len() == 0 {
        s
    } else if s[0] == '"' {
        remove_quotes(s.drop_first())
    } else {
        seq![s[0]] + remove_quotes(s.drop_first())
    }
}

/// `s` with non-breaking-space entities removed, pass after pass, until none is
/// left (removing one can join its neighbours into another, as in `&&nbsp;nbsp;`).
pub open spec fn remove_nbsp_all(s: Seq<char>) -> Seq<char>
    decreases s.len(),
{
    if has_nbsp(s) && remove_nbsp(s).len() < s.len() {
        remove_nbsp_all(remove_nbsp(s))
    } else {
        s
    }
}

/// A field with its tags removed, then its double quotes, then every
/// non-breaking-space entity until none is left.
pub open spec fn strip_markup(s: Seq<char>) -> Seq<char> {
    remove_nbsp_all(remove_quotes(strip_tags(s)))
}

/// Whether no tag is left in `s`: no `<` has a `>` after it on the same line.
pub open spec fn tag_free(s: Seq<char>) -> bool
    decreases s.len(),
{
    s.len() == 0 || ((s[0] != '<' || !closes(s.drop_first())) && tag_free(s.drop_first()))
}

proof fn lemma_closes_stop(t: Seq<char>)
    requires
        closes(t),
    ensures
        stop(t) < t.len(),
    decreases t.len(),
{
    if t[0] != '>' {
        lemma_closes_stop(t.drop_first());
    }
}

/// Skipping characters that are neither `>` nor `\n` changes nothing about closing.
proof fn lemma_closes_skip(x: Seq<char>, k: int)
    requires
        0 <= k <= x.len(),
        forall|i: int| 0 <= i < k ==> x[i] != '>' && x[i] != '\n',
    ensures
        closes(x) == closes(x.skip(k)),
    decreases k,
{
    if k > 0 {
        assert(x[0] != '>' && x[0] != '\n');
        let y = x.drop_first();
        assert forall|i: int| 0 <= i < k - 1 implies y[i] != '>' && y[i] != '\n' by {
            assert(y[i] == x[i + 1]);
        }
        lemma_closes_skip(y, k - 1);
        assert(y.skip(k - 1) =~= x.skip(k));
    } else {
        assert(x.skip(0) =~= x);
    }
}

proof fn lemma_tag_free_skip(s: Seq<char>, k: int)
    requires
        0 <= k <= s.len(),
        tag_free(s),
    ensures
        tag_free(s.skip(k)),
    decreases k,
{
    if k > 0 {
        lemma_tag_free_skip(s.drop_first(), k - 1);
        assert(s.drop_first().skip(k - 1) =~= s.skip(k));
    } else {
        assert(s.skip(0) =~= s);
    }
}

/// A tag-free string has nothing for tag removal to take.
proof fn lemma_strip_tags_free(s: Seq<char>)
    requires
        tag_free(s),
    ensures
        strip_tags(s) == s,
    decreases s.len(),
{
    if s.len() > 0 {
        lemma_strip_tags_free(s.drop_first());
        assert(seq![s[0]] + s.drop_first() =~= s);
    }
}

/// Tag removal never makes a line that did not close start to close.
proof fn lemma_strip_tags_keeps_open(x: Seq<char>)
    requires
        !closes(x),
    ensures
        !closes(strip_tags(x)),
    decreases x.len(),
{
    if x.len() > 0 && x[0] != '\n' {
        assert(x[0] != '>');
        assert(!closes(x.drop_first()));
        lemma_strip_tags_keeps_open(x.drop_first());
        let r = strip_tags(x);
        assert(r == seq![x[0]] + strip_tags(x.drop_first()));
        assert(r.drop_first() =~= strip_tags(x.drop_first()));
    } else if x.len() > 0 {
        let r = strip_tags(x);
        assert(r == seq![x[0]] + strip_tags(x.drop_first()));
        assert(r[0] == '\n');
    }
}

/// What tag removal leaves is tag-free.
proof fn lemma_strip_tags_tag_free(s: Seq<char>)
    ensures
        tag_free(strip_tags(s)),
    decreases s.len(),
{
    if s.len() > 0 {
        if s[0] == '<' && closes(s.drop_first()) && stop(s.drop_first()) + 2 <= s.len() {
            lemma_strip_tags_tag_free(s.skip(stop(s.drop_first()) + 2int));
        } else {
            if s[0] == '<' {
                if closes(s.drop_first()) {
                    lemma_closes_stop(s.drop_first());
                }
                lemma_strip_tags_keeps_open(s.drop_first());
            }
            lemma_strip_tags_tag_free(s.drop_first());
            let r = strip_tags(s);
            assert(r.drop_first() =~= strip_tags(s.drop_first()));
        }
    }
}

proof fn lemma_nbsp_chars(x: Seq<char>)
    requires
        x.len() >= 6,
        x.take(6) == nbsp(),
    ensures
        forall|i: int| 0 <= i < 6 ==> x[i] != '>' && x[i] != '\n' && x[i] != '<',
{
    assert forall|i: int| 0 <= i < 6 implies x[i] != '>' && x[i] != '\n' && x[i] != '<' by {
        assert(x[i] == x.take(6)[i]);
    }
}

proof fn lemma_remove_nbsp_keeps_open(x: Seq<char>)
    requires
        !closes(x),
    ensures
        !closes(remove_nbsp(x)),
    decreases x.len(),
{
    if x.len() > 0 {
        if x.len() >= 6 && x.take(6) == nbsp() {
            lemma_nbsp_chars(x);
            lemma_closes_skip(x, 6);
            lemma_remove_nbsp_keeps_open(x.skip(6));
        } else if x[0] != '\n' {
            lemma_remove_nbsp_keeps_open(x.drop_first());
            let r = remove_nbsp(x);
            assert(r.drop_first() =~= remove_nbsp(x.drop_first()));
        } else {
            let r = remove_nbsp(x);
            assert(r[0] == '\n');
        }
    }
}

/// Removing non-breaking-space entities keeps a string tag-free.
proof fn lemma_remove_nbsp_tag_free(s: Seq<char>)
    requires
        tag_free(s),
    ensures
        tag_free(remove_nbsp(s)),
    decreases s.len(),
{
    if s.len() > 0 {
        if s.len() >= 6 && s.take(6) == nbsp() {
            lemma_tag_free_skip(s, 6);
            lemma_remove_nbsp_tag_free(s.skip(6));
        } else {
            if s[0] == '<' {
                lemma_remove_nbsp_keeps_open(s.drop_first());
            }
            lemma_remove_nbsp_tag_free(s.drop_first());
            let r = remove_nbsp(s);
            assert(r.drop_first() =~= remove_nbsp(s.drop_first()));
        }
    }
}

proof fn lemma_remove_quotes_keeps_open(x: Seq<char>)
    requires
        !closes(x),
    ensures
        !closes(remove_quotes(x)),
    decreases x.len(),
{
    if x.len() > 0 {
        if x[0] == '"' {
            lemma_remove_quotes_keeps_open(x.drop_first());
        } else if x[0] != '\n' {
            lemma_remove_quotes_keeps_open(x.drop_first());
            let r = remove_quotes(x);
            assert(r.drop_first() =~= remove_quotes(x.drop_first()));
        } else {
            let r = remove_quotes(x);
            assert(r[0] == '\n');
        }
    }
}

/// Removing double quotes keeps a string tag-free.
proof fn lemma_remove_quotes_tag_free(s: Seq<char>)
    requires
        tag_free(s),
    ensures
        tag_free(remove_quotes(s)),
    decreases s.len(),
{
    if s.len() > 0 {
        if s[0] != '"' && s[0] == '<' {
            lemma_remove_quotes_keeps_open(s.drop_first());
        }
        lemma_remove_quotes_tag_free(s.drop_first());
        if s[0] != '"' {
            let r = remove_quotes(s);
            assert(r.drop_first() =~= remove_quotes(s.drop_first()));
        }
    }
}

proof fn lemma_remove_nbsp_len(s: Seq<char>)
    ensures
        remove_nbsp(s).len() <= s.len(),
        has_nbsp(s) ==> remove_nbsp(s).len() < s.len(),
        !has_nbsp(s) ==> remove_nbsp(s) == s,
    decreases s.len(),
{
    if s.len() > 0 {
        if s.len() >= 6 && s.take(6) == nbsp() {
            lemma_remove_nbsp_len(s.skip(6));
        } else {
            lemma_remove_nbsp_len(s.drop_first());
            if !has_nbsp(s) {
                assert(seq![s[0]] + s.drop_first() =~= s);
            }
        }
    }
}

proof fn lemma_contains_first(x: Seq<char>, c: char)
    requires
        x.len() > 0,
    ensures
        x.contains(c) == (x[0] == c || x.drop_first().contains(c)),
{
    if x.drop_first().contains(c) {
        let k = choose|k: int| 0 <= k < x.drop_first().len() && x.drop_first()[k] == c;
        assert(x[k + 1] == c);
    }
    if x.contains(c) {
        let k = choose|k: int| 0 <= k < x.len() && x[k] == c;
        if k > 0 {
            assert(x.drop_first()[k - 1] == c);
        }
    }
}

/// Removing double quotes leaves none, and changes nothing where there is none.
proof fn lemma_remove_quotes_clean(x: Seq<char>)
    ensures
        !remove_quotes(x).contains('"'),
        !x.contains('"') ==> remove_quotes(x) == x,
    decreases x.len(),
{
    if x.len() > 0 {
        lemma_remove_quotes_clean(x.drop_first());
        lemma_contains_first(x, '"');
        if x[0] != '"' {
            let r = remove_quotes(x);
            assert(r.drop_first() =~= remove_quotes(x.drop_first()));
            lemma_contains_first(r, '"');
            assert(seq![x[0]] + x.drop_first() =~= x);
        }
    }
}

/// Removing non-breaking-space entities brings in no double quote.
proof fn lemma_remove_nbsp_no_quote(x: Seq<char>)
    requires
        !x.contains('"'),
    ensures
        !remove_nbsp(x).contains('"'),
    decreases x.len(),
{
    if x.len() > 0 {
        lemma_contains_first(x, '"');
        if x.len() >= 6 && x.take(6) == nbsp() {
            let y = x.skip(6);
            assert(!y.contains('"')) by {
                if y.contains('"') {
                    let k = choose|k: int| 0 <= k < y.len() && y[k] == '"';
                    assert(x[k + 6] == '"');
                }
            }
            lemma_remove_nbsp_no_quote(y);
        } else {
            lemma_remove_nbsp_no_quote(x.drop_first());
            let r = remove_nbsp(x);
            assert(r.drop_first() =~= remove_nbsp(x.drop_first()));
            lemma_contains_first(r, '"');
        }
    }
}

/// Removing entities until none is left leaves none, keeps a string tag-free
/// and free of double quotes, and changes nothing where there is no entity.
proof fn lemma_remove_nbsp_all(x: Seq<char>)
    ensures
        !has_nbsp(remove_nbsp_all(x)),
        tag_free(x) ==> tag_free(remove_nbsp_all(x)),
        !x.contains('"') ==> !remove_nbsp_all(x).contains('"'),
        !has_nbsp(x) ==> remove_nbsp_all(x) == x,
    decreases x.len(),
{
    lemma_remove_nbsp_len(x);
    if has_nbsp(x) {
        if tag_free(x) {
            lemma_remove_nbsp_tag_free(x);
        }
        if !x.contains('"') {
            lemma_remove_nbsp_no_quote(x);
        }
        lemma_remove_nbsp_all(remove_nbsp(x));
    }
}

/// What stripping markup leaves holds no tag, no `&nbsp;` entity and no
/// double quote.
pub proof fn lemma_strip_markup_clean(s: Seq<char>)
    ensures
        tag_free(strip_markup(s)),
        !has_nbsp(strip_markup(s)),
        !strip_markup(s).contains('"'),
{
    let t0 = strip_tags(s);
    let t1 = remove_quotes(t0);
    lemma_strip_tags_tag_free(s);
    lemma_remove_quotes_tag_free(t0);
    lemma_remove_quotes_clean(t0);
    lemma_remove_nbsp_all(t1);
}

/// A field that holds no tag, no `&nbsp;` entity and no double quote is left
/// as it is by stripping markup.
pub proof fn lemma_strip_markup_keeps_clean(s: Seq<char>)
    requires
        tag_free(s),
        !has_nbsp(s),
        !s.contains('"'),
    ensures
        strip_markup(s) == s,
{
    lemma_strip_tags_free(s);
    lemma_remove_quotes_clean(s);
    lemma_remove_nbsp_all(s);
}

/// Stripping markup a second time changes nothing.
pub proof fn lemma_strip_markup_idempotent(s: Seq<char>)
    ensures
        strip_markup(strip_markup(s)) == strip_markup(s),
{
    lemma_strip_markup_clean(s);
    lemma_strip_markup_keeps_clean(strip_markup(s));
}

/// Whether `a` can be had from `b` by deleting characters.
pub open spec fn subseq_of(a: Seq<char>, b: Seq<char>) -> bool
    decreases b.len(),
{
    if a.len() == 0 {
        true
    } else if b.len() == 0 {
        false
    } else if a[0] == b[0] {
        subseq_of(a.drop_first(), b.drop_first())
    } else {
        subseq_of(a, b.drop_first())
    }
}

/// Dropping the first character of `a` keeps it a subsequence of `c`.
proof fn lemma_subseq_drop(a: Seq<char>, c: Seq<char>)
    requires
        a.len() > 0,
        subseq_of(a, c),
    ensures
        subseq_of(a.drop_first(), c),
    decreases c.len(), 1nat,
{
    if a[0] == c[0] {
        lemma_subseq_extend(a.drop_first(), c);
    } else {
        lemma_subseq_drop(a, c.drop_first());
        lemma_subseq_extend(a.drop_first(), c);
    }
}

/// A subsequence of `c` without its first character is one of `c`.
proof fn lemma_subseq_extend(x: Seq<char>, c: Seq<char>)
    requires
        c.len() > 0,
        subseq_of(x, c.drop_first()),
    ensures
        subseq_of(x, c),
    decreases c.len(), 0nat,
{
    if x.len() > 0 && x[0] == c[0] {
        lemma_subseq_drop(x, c.drop_first());
    }
}

proof fn lemma_subseq_skip(a: Seq<char>, b: Seq<char>, k: int)
    requires
        0 <= k <= b.len(),
        subseq_of(a, b.skip(k)),
    ensures
        subseq_of(a, b),
    decreases k,
{
    if k > 0 {
        assert(b.drop_first().skip(k - 1) =~= b.skip(k));
        lemma_subseq_skip(a, b.drop_first(), k - 1);
        lemma_subseq_extend(a, b);
    } else {
        assert(b.skip(0) =~= b);
    }
}

proof fn lemma_subseq_cons(x: char, a: Seq<char>, b: Seq<char>)
    requires
        subseq_of(a, b),
    ensures
        subseq_of(seq![x] + a, seq![x] + b),
{
    assert((seq![x] + a).drop_first() =~= a);
    assert((seq![x] + b).drop_first() =~= b);
}

proof fn lemma_subseq_trans(a: Seq<char>, b: Seq<char>, c: Seq<char>)
    requires
        subseq_of(a, b),
        subseq_of(b, c),
    ensures
        subseq_of(a, c),
    decreases c.len(),
{
    if a.len() > 0 && c.len() > 0 {
        if b[0] == c[0] {
            if a[0] == b[0] {
                lemma_subseq_trans(a.drop_first(), b.drop_first(), c.drop_first());
            } else {
                lemma_subseq_trans(a, b.drop_first(), c.drop_first());
                lemma_subseq_extend(a, c);
            }
        } else {
            lemma_subseq_trans(a, b, c.drop_first());
            lemma_subseq_extend(a, c);
        }
    }
}

proof fn lemma_strip_tags_subseq(s: Seq<char>)
    ensures
        subseq_of(strip_tags(s), s),
    decreases s.len(),
{
    if s.len() > 0 {
        if s[0] == '<' && closes(s.drop_first()) && stop(s.drop_first()) + 2 <= s.len() {
            let k = stop(s.drop_first()) + 2int;
            lemma_strip_tags_subseq(s.skip(k));
            lemma_subseq_skip(strip_tags(s), s, k);
        } else {
            lemma_strip_tags_subseq(s.drop_first());
            lemma_subseq_cons(s[0], strip_tags(s.drop_first()), s.drop_first());
            assert(seq![s[0]] + s.drop_first() =~= s);
        }
    }
}

proof fn lemma_remove_quotes_subseq(s: Seq<char>)
    ensures
        subseq_of(remove_quotes(s), s),
    decreases s.len(),
{
    if s.len() > 0 {
        lemma_remove_quotes_subseq(s.drop_first());
        if s[0] == '"' {
            lemma_subseq_extend(remove_quotes(s), s);
        } else {
            lemma_subseq_cons(s[0], remove_quotes(s.drop_first()), s.drop_first());
            assert(seq![s[0]] + s.drop_first() =~= s);
        }
    }
}

proof fn lemma_remove_nbsp_subseq(s: Seq<char>)
    ensures
        subseq_of(remove_nbsp(s), s),
    decreases s.len(),
{
    if s.len() > 0 {
        if s.len() >= 6 && s.take(6) == nbsp() {
            lemma_remove_nbsp_subseq(s.skip(6));
            lemma_subseq_skip(remove_nbsp(s), s, 6);
        } else {
            lemma_remove_nbsp_subseq(s.drop_first());
            lemma_subseq_cons(s[0], remove_nbsp(s.drop_first()), s.drop_first());
            assert(seq![s[0]] + s.drop_first() =~= s);
        }
    }
}

proof fn lemma_remove_nbsp_all_subseq(s: Seq<char>)
    ensures
        subseq_of(remove_nbsp_all(s), s),
    decreases s.len(),
{
    if has_nbsp(s) && remove_nbsp(s).len() < s.len() {
        lemma_remove_nbsp_all_subseq(remove_nbsp(s));
        lemma_remove_nbsp_subseq(s);
        lemma_subseq_trans(remove_nbsp_all(s), remove_nbsp(s), s);
    } else {
        lemma_subseq_refl(s);
    }
}

proof fn lemma_subseq_refl(s: Seq<char>)
    ensures
        subseq_of(s, s),
    decreases s.len(),
{
    if s.len() > 0 {
        lemma_subseq_refl(s.drop_first());
    }
}

/// Stripping markup only deletes characters.
pub proof fn lemma_strip_markup_subseq(s: Seq<char>)
    ensures
        subseq_of(strip_markup(s), s),
{
    let t0 = strip_tags(s);
    let t1 = remove_quotes(t0);
    lemma_strip_tags_subseq(s);
    lemma_remove_quotes_subseq(t0);
    lemma_remove_nbsp_all_subseq(t1);
    lemma_subseq_trans(t1, t0, s);
    lemma_subseq_trans(strip_markup(s), t1, s);
}

/// Relies on regex::Regex::replace_all with the pattern `<.*?>` and an empty
/// replacement: leftmost-first, lazy matches, `.` matching all but `\n`.
#[verifier::external_body]
fn remove_tags(word: &str) -> (r: String)
    ensures
        r@ == strip_tags(word@),
{
    let pattern = regex::Regex::new("<.*?>").expect("the pattern is valid");
    pattern.replace_all(word, "").into_owned()
}

fn starts_nbsp(cs: &Vec<char>, i: usize) -> (r: bool)
    requires
        i <= cs.len(),
    ensures
        r == (cs@.skip(i as int).len() >= 6 && cs@.skip(i as int).take(6) == nbsp()),
{
    let ghost t = cs@.skip(i as int);
    if cs.len() - i < 6 {
        return false;
    }
    let r = cs[i] == '&' && cs[i + 1] == 'n' && cs[i + 2] == 'b' && cs[i + 3] == 's'
        && cs[i + 4] == 'p' && cs[i + 5] == ';';
    assert(r == (t.take(6) =~= nbsp())) by {
        assert(t[0] == cs@[i as int]);
        assert(t[1] == cs@[i + 1]);
        assert(t[2] == cs@[i + 2]);
        assert(t[3] == cs@[i + 3]);
        assert(t[4] == cs@[i + 4]);
        assert(t[5] == cs@[i + 5]);
    }
    r
}

fn without_nbsp(s: &str) -> (r: String)
    ensures
        r@ == remove_nbsp(s@),
{
    let cs = chars_of(s);
    let mut r = String::new();
    let mut i: usize = 0;
    assert(cs@.skip(0) =~= s@);
    assert(r@ + remove_nbsp(s@) =~= remove_nbsp(s@));
    while i < cs.len()
        invariant
            i <= cs.len(),
            cs@ == s@,
            r@ + remove_nbsp(cs@.skip(i as int)) == remove_nbsp(s@),
        decreases cs.len() - i,
    {
        let ghost t = cs@.skip(i as int);
        if starts_nbsp(&cs, i) {
            assert(t.skip(6) =~= cs@.skip(i + 6));
            i = i + 6;
        } else {
            assert(t.drop_first() =~= cs@.skip(i + 1));
            assert(r@.push(cs@[i as int]) + remove_nbsp(t.drop_first()) =~= r@ + remove_nbsp(t));
            push_char(&mut r, cs[i]);
            i = i + 1;
        }
    }
    assert(cs@.skip(i as int) =~= Seq::<char>::empty());
    assert(r@ + Seq::<char>::empty() =~= r@);
    r
}

fn without_quotes(s: &str) -> (r: String)
    ensures
        r@ == remove_quotes(s@),
{
    let cs = chars_of(s);
    let mut r = String::new();
    let mut i: usize = 0;
    assert(cs@.skip(0) =~= s@);
    assert(r@ + remove_quotes(s@) =~= remove_quotes(s@));
    while i < cs.len()
        invariant
            i <= cs.len(),
            cs@ == s@,
            r@ + remove_quotes(cs@.skip(i as int)) == remove_quotes(s@),
        decreases cs.len() - i,
    {
        let ghost t = cs@.skip(i as int);
        assert(t.drop_first() =~= cs@.skip(i + 1));
        if cs[i] != '"' {
            assert(r@.push(cs@[i as int]) + remove_quotes(t.drop_first()) =~= r@ + remove_quotes(t));
            push_char(&mut r, cs[i]);
        }
        i = i + 1;
    }
    assert(cs@.skip(i as int) =~= Seq::<char>::empty());
    assert(r@ + Seq::<char>::empty() =~= r@);
    r
}

/// Removes non-breaking-space entities from `s` until none is left.
fn without_any_nbsp(s: String) -> (r: String)
    ensures
        r@ == remove_nbsp_all(s@),
{
    let mut cur = s;
    loop
        invariant
            remove_nbsp_all(cur@) == remove_nbsp_all(s@),
        decreases cur@.len(),
    {
        let next = without_nbsp(cur.as_str());
        proof {
            lemma_remove_nbsp_len(cur@);
        }
        let before = chars_of(cur.as_str()).len();
        let after = chars_of(next.as_str()).len();
        if after == before {
            return cur;
        }
        cur = next;
    }
}

/// Removes tags (`<` up to the next `>` on the same line), then double quotes,
/// then the entity `&nbsp;` until none is left.
pub fn remove_html(word: &str) -> (r: String)
    ensures
        r@ == strip_markup(word@),
        subseq_of(r@, word@),
        tag_free(r@),
        !has_nbsp(r@),
        !r@.contains('"'),
        tag_free(word@) && !has_nbsp(word@) && !word@.contains('"') ==> r@ == word@,
{
    let tagless = remove_tags(word);
    let unquoted = without_quotes(tagless.as_str());
    let r = without_any_nbsp(unquoted);
    proof {
        lemma_strip_markup_subseq(word@);
        lemma_strip_markup_clean(word@);
        if tag_free(word@) && !has_nbsp(word@) && !word@.contains('"') {
            lemma_strip_markup_keeps_clean(word@);
        }
    }
    r
}

} // verus!

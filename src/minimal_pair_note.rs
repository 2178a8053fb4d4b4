//! A card contrasting two (or three) words that sound alike.
use vstd::prelude::*;

use crate::codec::{decode_fields, join_fields, join_spec, push_str};
use crate::error::Error;
use crate::markup::{lemma_strip_markup_idempotent, remove_html, strip_markup};
use crate::note::{strip_fields, Note};
use crate::simple_note::SimpleNote;
use crate::text::{split_on, split_spec, str_lt, views_of};

verus! {

/// A card contrasting two words, optionally a third, each with its audio and
/// pronunciation.
#[derive(Debug)]
pub struct MinimalPairNote {
    pub word1: String,
    pub audio1: String,
    pub ipa1: String,
    pub word2: String,
    pub audio2: String,
    pub ipa2: String,
    pub word3: String,
    pub audio3: String,
    pub ipa3: String,
    pub compare_word3: String,
    pub tags: String,
}

/// The field values of a minimal-pair card.
pub struct MinimalPair {
    pub word1: Seq<char>,
    pub audio1: Seq<char>,
    pub ipa1: Seq<char>,
    pub word2: Seq<char>,
    pub audio2: Seq<char>,
    pub ipa2: Seq<char>,
    pub word3: Seq<char>,
    pub audio3: Seq<char>,
    pub ipa3: Seq<char>,
    pub compare_word3: Seq<char>,
    pub tags: Seq<char>,
}

impl MinimalPair {
    /// The fields in declared order.
    pub open spec fn fields(self) -> Seq<Seq<char>> {
        seq![
            self.word1,
            self.audio1,
            self.ipa1,
            self.word2,
            self.audio2,
            self.ipa2,
            self.word3,
            self.audio3,
            self.ipa3,
            self.compare_word3,
            self.tags,
        ]
    }
}

impl View for MinimalPairNote {
    type V = MinimalPair;

    open spec fn view(&self) -> MinimalPair {
        MinimalPair {
            word1: self.word1@,
            audio1: self.audio1@,
            ipa1: self.ipa1@,
            word2: self.word2@,
            audio2: self.audio2@,
            ipa2: self.ipa2@,
            word3: self.word3@,
            audio3: self.audio3@,
            ipa3: self.ipa3@,
            compare_word3: self.compare_word3@,
            tags: self.tags@,
        }
    }
}

/// The models of a sequence of cards.
pub open spec fn models(s: Seq<MinimalPairNote>) -> Seq<MinimalPair> {
    s.map_values(|n: MinimalPairNote| n@)
}

/// Two cards are duplicates when they contrast the same two words and neither
/// has a third word.
pub open spec fn duplicates(a: MinimalPair, b: MinimalPair) -> bool {
    a.word1 == b.word1 && a.word2 == b.word2 && a.word3.len() == 0 && b.word3.len() == 0
}

/// `x` unless it is empty, else `y`.
pub open spec fn prefer(x: Seq<char>, y: Seq<char>) -> Seq<char> {
    if x.len() > 0 {
        x
    } else {
        y
    }
}

/// The card that replaces two duplicates, `a` the later one and `b` the earlier:
/// the audio of both (the earlier first), the pronunciations of `a` where it has
/// them, else of `b`, and nothing of a third word or tags.
pub open spec fn merged(a: MinimalPair, b: MinimalPair) -> MinimalPair {
    MinimalPair {
        word1: a.word1,
        audio1: b.audio1 + a.audio1,
        ipa1: prefer(a.ipa1, b.ipa1),
        word2: a.word2,
        audio2: b.audio2 + a.audio2,
        ipa2: prefer(a.ipa2, b.ipa2),
        word3: Seq::empty(),
        audio3: Seq::empty(),
        ipa3: Seq::empty(),
        compare_word3: Seq::empty(),
        tags: Seq::empty(),
    }
}

/// The deduplication pass: each card is compared with the one after it; a
/// duplicate pair becomes its merge and both leave the comparison, any other
/// card is kept as it is.
pub open spec fn dedup_spec(s: Seq<MinimalPair>) -> Seq<MinimalPair>
    decreases s.len(),
{
    if s.len() < 2 {
        s
    } else if duplicates(s[1], s[0]) {
        seq![merged(s[1], s[0])] + dedup_spec(s.skip(2))
    } else {
        seq![s[0]] + dedup_spec(s.drop_first())
    }
}

/// The number of adjacent pairs of duplicates in `s`.
pub open spec fn duplicate_pairs(s: Seq<MinimalPair>) -> nat
    decreases s.len(),
{
    if s.len() < 2 {
        0
    } else {
        (if duplicates(s[0], s[1]) { 1nat } else { 0nat }) + duplicate_pairs(s.drop_first())
    }
}

/// No three adjacent cards are pairwise duplicates.
pub open spec fn no_triples(s: Seq<MinimalPair>) -> bool {
    forall|i: int|
        0 <= i && i + 2 < s.len() ==> !(#[trigger] duplicates(s[i], s[i + 1]) && duplicates(
            s[i + 1],
            s[i + 2],
        ))
}

/// A word written as `word/ipa/` split in two: what comes before the first `/`,
/// and the rest with every `/` removed; `None` when there is no `/`.
pub open spec fn split_ipa(w: Seq<char>) -> Option<(Seq<char>, Seq<char>)> {
    let segs = split_spec(w, '/');
    if segs.len() > 1 {
        Some((segs[0], segs.drop_first().flatten()))
    } else {
        None
    }
}

/// The word and pronunciation after the pronunciation is moved out of the word,
/// where the word holds one.
pub open spec fn moved_ipa(word: Seq<char>, ipa: Seq<char>) -> (Seq<char>, Seq<char>) {
    match split_ipa(word) {
        Some(parts) => parts,
        None => (word, ipa),
    }
}

/// The card made of two simple cards: the first word and audio from `a`, the
/// second from `b`, all else empty.
pub open spec fn from_simple(a: SimpleNote, b: SimpleNote) -> MinimalPair {
    MinimalPair {
        word1: a.word@,
        audio1: a.audio@,
        ipa1: Seq::empty(),
        word2: b.word@,
        audio2: b.audio@,
        ipa2: Seq::empty(),
        word3: Seq::empty(),
        audio3: Seq::empty(),
        ipa3: Seq::empty(),
        compare_word3: Seq::empty(),
        tags: Seq::empty(),
    }
}

/// Splits `word/ipa/` into the word and its pronunciation.
pub fn split_ipa_from_word(word: &str) -> (r: Option<(String, String)>)
    ensures
        match (r, split_ipa(word@)) {
            (Some((w, i)), Some((sw, si))) => w@ == sw && i@ == si,
            (None, None) => true,
            _ => false,
        },
{
    let segs = split_on(word, '/');
    let ghost vs = views_of(segs@);
    if segs.len() <= 1 {
        return None;
    }
    assert(segs@[0]@ == vs[0]);
    let before = segs[0].clone();
    let mut ipa = String::new();
    let mut i: usize = 1;
    assert(vs.drop_first() =~= vs.skip(1));
    assert(ipa@ + vs.skip(1).flatten() =~= vs.skip(1).flatten());
    while i < segs.len()
        invariant
            1 <= i <= segs.len(),
            vs == views_of(segs@),
            ipa@ + vs.skip(i as int).flatten() == vs.skip(1).flatten(),
        decreases segs.len() - i,
    {
        let ghost t = vs.skip(i as int);
        assert(t.first() == segs@[i as int]@);
        assert(t.drop_first() =~= vs.skip(i + 1));
        assert(ipa@ + segs@[i as int]@ + vs.skip(i + 1).flatten() =~= ipa@ + t.flatten());
        push_str(&mut ipa, segs[i].as_str());
        i = i + 1;
    }
    assert(vs.skip(i as int) =~= Seq::<Seq<char>>::empty());
    assert(ipa@ + Seq::<char>::empty() =~= ipa@);
    Some((before, ipa))
}

/// The card with the markup of its words and pronunciations stripped.
pub open spec fn cleaned(m: MinimalPair) -> MinimalPair {
    MinimalPair {
        word1: strip_markup(m.word1),
        ipa1: strip_markup(m.ipa1),
        word2: strip_markup(m.word2),
        ipa2: strip_markup(m.ipa2),
        word3: strip_markup(m.word3),
        ipa3: strip_markup(m.ipa3),
        ..m
    }
}

/// Cleaning a card a second time changes nothing.
pub proof fn lemma_clean_twice(m: MinimalPair)
    ensures
        cleaned(cleaned(m)) == cleaned(m),
{
    lemma_strip_markup_idempotent(m.word1);
    lemma_strip_markup_idempotent(m.ipa1);
    lemma_strip_markup_idempotent(m.word2);
    lemma_strip_markup_idempotent(m.ipa2);
    lemma_strip_markup_idempotent(m.word3);
    lemma_strip_markup_idempotent(m.ipa3);
}

impl Note for MinimalPairNote {
    open spec fn arity() -> nat {
        11
    }

    open spec fn fields(&self) -> Seq<Seq<char>> {
        self@.fields()
    }

    proof fn lemma_fields_len(&self) {
    }

    fn remove_html(self) -> (r: Self) {
        let r = MinimalPairNote {
            word1: remove_html(self.word1.as_str()),
            audio1: remove_html(self.audio1.as_str()),
            ipa1: remove_html(self.ipa1.as_str()),
            word2: remove_html(self.word2.as_str()),
            audio2: remove_html(self.audio2.as_str()),
            ipa2: remove_html(self.ipa2.as_str()),
            word3: remove_html(self.word3.as_str()),
            audio3: remove_html(self.audio3.as_str()),
            ipa3: remove_html(self.ipa3.as_str()),
            compare_word3: remove_html(self.compare_word3.as_str()),
            tags: remove_html(self.tags.as_str()),
        };
        assert(r.fields() =~= strip_fields(self.fields()));
        r
    }

    fn into_line(self, separator: char) -> (r: String) {
        self.to_line(separator)
    }

    fn from_line(line: &str, separator: char) -> (r: Result<Self, Error>) {
        let v = decode_fields(line, separator, 11)?;
        let ghost vs = views_of(v@);
        assert(forall|i: int| 0 <= i < 11 ==> v@[i]@ == vs[i]);
        let n = MinimalPairNote {
            word1: v[0].clone(),
            audio1: v[1].clone(),
            ipa1: v[2].clone(),
            word2: v[3].clone(),
            audio2: v[4].clone(),
            ipa2: v[5].clone(),
            word3: v[6].clone(),
            audio3: v[7].clone(),
            ipa3: v[8].clone(),
            compare_word3: v[9].clone(),
            tags: v[10].clone(),
        };
        assert(n.fields() =~= vs);
        Ok(n)
    }
}

impl MinimalPairNote {
    /// The card made of two simple cards, `simple_note1` giving the first word
    /// and its audio, `simple_note2` the second.
    pub fn from_simple_notes(simple_note1: &SimpleNote, simple_note2: &SimpleNote) -> (r: Self)
        ensures
            r@ == from_simple(*simple_note1, *simple_note2),
    {
        let r = MinimalPairNote {
            word1: simple_note1.word.clone(),
            audio1: simple_note1.audio.clone(),
            ipa1: String::new(),
            word2: simple_note2.word.clone(),
            audio2: simple_note2.audio.clone(),
            ipa2: String::new(),
            word3: String::new(),
            audio3: String::new(),
            ipa3: String::new(),
            compare_word3: String::new(),
            tags: String::new(),
        };
        assert(r@ =~= from_simple(*simple_note1, *simple_note2));
        r
    }

    /// Moves a pronunciation written into each of the three words (`word/ipa/`)
    /// into the word's pronunciation field.
    pub fn move_ipas_from_words(self) -> (r: Self)
        ensures
            (r@.word1, r@.ipa1) == moved_ipa(self@.word1, self@.ipa1),
            (r@.word2, r@.ipa2) == moved_ipa(self@.word2, self@.ipa2),
            (r@.word3, r@.ipa3) == moved_ipa(self@.word3, self@.ipa3),
            r@.audio1 == self@.audio1,
            r@.audio2 == self@.audio2,
            r@.audio3 == self@.audio3,
            r@.compare_word3 == self@.compare_word3,
            r@.tags == self@.tags,
    {
        let mut note = self;
        match split_ipa_from_word(note.word1.as_str()) {
            Some((word, ipa)) => {
                note.word1 = word;
                note.ipa1 = ipa;
            },
            None => {},
        }
        match split_ipa_from_word(note.word2.as_str()) {
            Some((word, ipa)) => {
                note.word2 = word;
                note.ipa2 = ipa;
            },
            None => {},
        }
        match split_ipa_from_word(note.word3.as_str()) {
            Some((word, ipa)) => {
                note.word3 = word;
                note.ipa3 = ipa;
            },
            None => {},
        }
        note
    }

    /// Strips the markup of the words and pronunciations; audio, the third-word
    /// marker and tags stay as they are.
    pub fn clean_all(self) -> (r: Self)
        ensures
            r@ == cleaned(self@),
    {
        let mut note = self;
        note.word1 = remove_html(note.word1.as_str());
        note.ipa1 = remove_html(note.ipa1.as_str());
        note.word2 = remove_html(note.word2.as_str());
        note.ipa2 = remove_html(note.ipa2.as_str());
        note.word3 = remove_html(note.word3.as_str());
        note.ipa3 = remove_html(note.ipa3.as_str());
        note
    }

    /// The fields joined by `separator`, in declared order.
    pub fn to_line(self, separator: char) -> (r: String)
        ensures
            r@ == join_spec(self@.fields(), separator),
    {
        let ghost m = self@;
        let v = vec![
            self.word1,
            self.audio1,
            self.ipa1,
            self.word2,
            self.audio2,
            self.ipa2,
            self.word3,
            self.audio3,
            self.ipa3,
            self.compare_word3,
            self.tags,
        ];
        assert(views_of(v@) =~= m.fields());
        join_fields(&v, separator)
    }

    /// Whether this card and `other` are duplicates.
    pub fn is_duplicate(&self, other: &MinimalPairNote) -> (r: bool)
        ensures
            r == duplicates(self@, other@),
    {
        self.word1 == other.word1 && self.word2 == other.word2 && self.word3.as_str().is_empty()
            && other.word3.as_str().is_empty()
    }

    /// The card that replaces the duplicates `note1` (the later) and `note2`
    /// (the earlier).
    pub fn merge_duplicates(note1: Self, note2: Self) -> (r: Self)
        requires
            duplicates(note1@, note2@),
        ensures
            r@ == merged(note1@, note2@),
    {
        let mut audio1 = note2.audio1;
        push_str(&mut audio1, note1.audio1.as_str());
        let mut audio2 = note2.audio2;
        push_str(&mut audio2, note1.audio2.as_str());
        let ipa1 = if !note1.ipa1.as_str().is_empty() {
            note1.ipa1
        } else {
            note2.ipa1
        };
        let ipa2 = if !note1.ipa2.as_str().is_empty() {
            note1.ipa2
        } else {
            note2.ipa2
        };
        let r = MinimalPairNote {
            word1: note1.word1,
            audio1,
            ipa1,
            word2: note1.word2,
            audio2,
            ipa2,
            word3: String::new(),
            audio3: String::new(),
            ipa3: String::new(),
            compare_word3: String::new(),
            tags: String::new(),
        };
        assert(r@ =~= merged(note1@, note2@));
        r
    }
}

/// Turns consecutive simple cards into minimal-pair cards: the first with the
/// second, the third with the fourth, and so on.
pub fn pair_simple_notes(simple_notes: &Vec<SimpleNote>) -> (r: Vec<MinimalPairNote>)
    requires
        simple_notes.len() % 2 == 0,
    ensures
        2 * r.len() == simple_notes.len(),
        forall|i: int|
            0 <= i < r.len() ==> (#[trigger] r@[i])@ == from_simple(
                simple_notes@[2 * i],
                simple_notes@[2 * i + 1],
            ),
{
    let mut r: Vec<MinimalPairNote> = Vec::new();
    let mut k: usize = 0;
    while k < simple_notes.len() / 2
        invariant
            simple_notes.len() % 2 == 0,
            k <= simple_notes.len() / 2,
            r.len() == k,
            forall|i: int|
                0 <= i < k ==> (#[trigger] r@[i])@ == from_simple(
                    simple_notes@[2 * i],
                    simple_notes@[2 * i + 1],
                ),
        decreases simple_notes.len() / 2 - k,
    {
        let note = MinimalPairNote::from_simple_notes(&simple_notes[2 * k], &simple_notes[2 * k + 1]);
        r.push(note);
        k = k + 1;
    }
    r
}

/// The number of adjacent pairs of duplicates in `notes`.
pub fn count_duplicate_pairs(notes: &Vec<MinimalPairNote>) -> (r: usize)
    ensures
        r == duplicate_pairs(models(notes@)),
{
    let ghost m = models(notes@);
    if notes.len() < 2 {
        return 0;
    }
    let mut count: usize = 0;
    let mut i: usize = 0;
    assert(m.skip(0) =~= m);
    while i + 1 < notes.len()
        invariant
            i + 1 <= notes.len(),
            m == models(notes@),
            count + duplicate_pairs(m.skip(i as int)) == duplicate_pairs(m),
            count <= i,
        decreases notes.len() - i,
    {
        let ghost t = m.skip(i as int);
        assert(t.drop_first() =~= m.skip(i + 1));
        assert(t[0] == notes@[i as int]@ && t[1] == notes@[i + 1]@);
        if notes[i].is_duplicate(&notes[i + 1]) {
            count = count + 1;
        }
        i = i + 1;
    }
    assert(m.skip(i as int).len() < 2);
    count
}

/// Collapses each adjacent pair of duplicates of a sorted deck into one card.
pub fn deduplicate(notes: Vec<MinimalPairNote>) -> (r: Vec<MinimalPairNote>)
    requires
        forall|i: int| 0 <= i < notes.len() ==> str_lt(#[trigger] notes@[i].word1@, notes@[i].word2@),
    ensures
        models(r@) == dedup_spec(models(notes@)),
{
    let ghost m = models(notes@);
    let mut pending: Option<MinimalPairNote> = None;
    let mut out: Vec<MinimalPairNote> = Vec::new();
    assert(m.skip(0) =~= m);
    assert(models(out@) + dedup_spec(m) =~= dedup_spec(m));
    for note in it: notes.into_iter()
        invariant
            it.seq() == notes@,
            m == models(notes@),
            match pending {
                None => models(out@) + dedup_spec(m.skip(it.index() as int)) == dedup_spec(m),
                Some(p) => {
                    &&& it.index() >= 1
                    &&& p@ == m[it.index() - 1]
                    &&& models(out@) + dedup_spec(m.skip(it.index() - 1)) == dedup_spec(m)
                },
            },
    {
        let ghost i = it.index();
        assert(note@ == m[i]);
        match pending {
            Some(prev) => {
                let ghost t = m.skip(i - 1);
                assert(t[0] == prev@ && t[1] == note@);
                assert(t.skip(2) =~= m.skip(i + 1));
                assert(t.drop_first() =~= m.skip(i as int));
                let ghost before = out@;
                if note.is_duplicate(&prev) {
                    let merged_note = MinimalPairNote::merge_duplicates(note, prev);
                    out.push(merged_note);
                    pending = None;
                } else {
                    out.push(prev);
                    pending = Some(note);
                }
                assert(models(out@) =~= models(before).push(out@.last()@));
            },
            None => {
                pending = Some(note);
            },
        }
    }
    match pending {
        Some(last) => {
            let ghost t = m.skip(m.len() - 1);
            assert(t =~= seq![last@]);
            let ghost before = out@;
            out.push(last);
            assert(models(out@) =~= models(before).push(last@));
        },
        None => {
            assert(m.skip(m.len() as int) =~= Seq::<MinimalPair>::empty());
        },
    }
    out
}

/// A deck with no run of three duplicates shrinks by one card for each adjacent
/// pair of duplicates.
pub proof fn lemma_dedup_count(s: Seq<MinimalPair>)
    requires
        no_triples(s),
    ensures
        dedup_spec(s).len() == s.len() - duplicate_pairs(s),
    decreases s.len(),
{
    if s.len() >= 2 {
        let t = s.drop_first();
        assert(no_triples(t)) by {
            assert forall|i: int| 0 <= i && i + 2 < t.len() implies !(#[trigger] duplicates(t[i], t[i + 1]) && duplicates(t[i + 1], t[i + 2])) by {
                assert(duplicates(s[i + 1], s[i + 2]) == duplicates(t[i], t[i + 1]));
                assert(!(duplicates(s[i + 1], s[i + 2]) && duplicates(s[i + 2], s[i + 3])));
            }
        }
        lemma_dedup_count(t);
        if duplicates(s[1], s[0]) {
            let u = s.skip(2);
            assert(u =~= t.drop_first());
            assert(no_triples(u)) by {
                assert forall|i: int| 0 <= i && i + 2 < u.len() implies !(#[trigger] duplicates(u[i], u[i + 1]) && duplicates(u[i + 1], u[i + 2])) by {
                    assert(duplicates(s[i + 2], s[i + 3]) == duplicates(u[i], u[i + 1]));
                    assert(!(duplicates(s[i + 2], s[i + 3]) && duplicates(s[i + 3], s[i + 4])));
                }
            }
            lemma_dedup_count(u);
            assert(duplicates(s[0], s[1]));
            if s.len() >= 3 {
                assert(!(duplicates(s[0], s[1]) && duplicates(s[1], s[2])));
                assert(!duplicates(t[0], t[1]));
            }
        } else {
            assert(!duplicates(s[0], s[1]));
        }
    }
}

/// Two adjacent cards that contrast different second words both stay, in order
/// and unchanged.
pub proof fn lemma_distinct_pass_through(a: MinimalPair, b: MinimalPair)
    requires
        a.word2 != b.word2,
    ensures
        dedup_spec(seq![a, b]) == seq![a, b],
{
    let s = seq![a, b];
    assert(s[0] == a && s[1] == b);
    assert(!duplicates(s[1], s[0]));
    assert(s.drop_first() =~= seq![b]);
    assert(dedup_spec(seq![b]) == seq![b]);
    assert(seq![a] + seq![b] =~= s);
}

} // verus!

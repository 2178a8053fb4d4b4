//! A card that links a spelling to a word, a picture, audio and a pronunciation.
use vstd::prelude::*;

use crate::codec::{decode_fields, join_fields};
use crate::error::Error;
use crate::markup::{remove_html, strip_markup};
use crate::note::{strip_fields, Note};
use crate::text::views_of;

verus! {

/// A card that links a spelling to a sound.
#[derive(Debug)]
pub struct SpellingNote {
    pub spelling: String,
    pub word: String,
    pub picture: String,
    pub audio: String,
    pub ipa: String,
}

/// The pronunciation and the sound reference that the pattern
/// `\[*(.*?)\]*(\[.*?\])` captures in `s` (its first and second group), if it
/// matches.
pub uninterp spec fn bracket_parts(s: Seq<char>) -> Option<(Seq<char>, Seq<char>)>;

/// Relies on regex::Regex::captures with the pattern `\[*(.*?)\]*(\[.*?\])`:
/// the texts of its two groups when it matches, which depend on `s` alone.
#[verifier::external_body]
fn audio_parts(s: &str) -> (r: Option<(String, String)>)
    ensures
        match (r, bracket_parts(s@)) {
            (Some((ipa, audio)), Some((pi, pa))) => ipa@ == pi && audio@ == pa,
            (None, None) => true,
            _ => false,
        },
{
    let pattern = regex::Regex::new(r"\[*(.*?)\]*(\[.*?\])").expect("the pattern is valid");
    pattern.captures(s).map(|c| (c[1].to_string(), c[2].to_string()))
}

impl Note for SpellingNote {
    open spec fn arity() -> nat {
        5
    }

    open spec fn fields(&self) -> Seq<Seq<char>> {
        seq![self.spelling@, self.word@, self.picture@, self.audio@, self.ipa@]
    }

    proof fn lemma_fields_len(&self) {
    }

    fn remove_html(self) -> (r: Self) {
        let r = SpellingNote {
            spelling: remove_html(self.spelling.as_str()),
            word: remove_html(self.word.as_str()),
            picture: remove_html(self.picture.as_str()),
            audio: remove_html(self.audio.as_str()),
            ipa: remove_html(self.ipa.as_str()),
        };
        assert(r.fields() =~= strip_fields(self.fields()));
        r
    }

    fn into_line(self, separator: char) -> (r: String) {
        let v = vec![self.spelling, self.word, self.picture, self.audio, self.ipa];
        assert(views_of(v@) =~= self.fields());
        join_fields(&v, separator)
    }

    fn from_line(line: &str, separator: char) -> (r: Result<Self, Error>) {
        let v = decode_fields(line, separator, 5)?;
        let ghost vs = views_of(v@);
        assert(forall|i: int| 0 <= i < 5 ==> v@[i]@ == vs[i]);
        let n = SpellingNote {
            spelling: v[0].clone(),
            word: v[1].clone(),
            picture: v[2].clone(),
            audio: v[3].clone(),
            ipa: v[4].clone(),
        };
        assert(n.fields() =~= vs);
        Ok(n)
    }
}

impl SpellingNote {
    /// The card with its pronunciation and audio taken from `parts`, the
    /// pronunciation first; `None` when there are no parts.
    pub fn with_audio_parts(self, parts: Option<(String, String)>) -> (r: Option<SpellingNote>)
        ensures
            match (r, parts) {
                (Some(n), Some((ipa, audio))) => {
                    &&& n.ipa@ == ipa@
                    &&& n.audio@ == audio@
                    &&& n.spelling@ == self.spelling@
                    &&& n.word@ == self.word@
                    &&& n.picture@ == self.picture@
                },
                (None, None) => true,
                _ => false,
            },
    {
        match parts {
            Some((ipa, audio)) => Some(SpellingNote { ipa, audio, ..self }),
            None => None,
        }
    }

    /// Cleans the markup from the audio field and splits it into the
    /// pronunciation written before the sound reference and the reference
    /// itself; `None` when the field holds no bracketed reference.
    pub fn split_audio(self) -> (r: Option<SpellingNote>)
        ensures
            match (r, bracket_parts(strip_markup(self.audio@))) {
                (Some(n), Some((ipa, audio))) => {
                    &&& n.ipa@ == ipa
                    &&& n.audio@ == audio
                    &&& n.spelling@ == self.spelling@
                    &&& n.word@ == self.word@
                    &&& n.picture@ == self.picture@
                },
                (None, None) => true,
                _ => false,
            },
    {
        let cleaned = remove_html(self.audio.as_str());
        let parts = audio_parts(cleaned.as_str());
        self.with_audio_parts(parts)
    }
}

} // verus!

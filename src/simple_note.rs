//! A card with a word, its audio and tags.
use vstd::prelude::*;

use crate::codec::{decode_fields, join_fields};
use crate::error::Error;
use crate::markup::remove_html;
use crate::note::{strip_fields, Note};
use crate::text::views_of;

verus! {

/// A card with one word and its audio.
#[derive(Debug)]
pub struct SimpleNote {
    pub audio: String,
    pub word: String,
    pub tags: String,
}

impl Note for SimpleNote {
    open spec fn arity() -> nat {
        3
    }

    open spec fn fields(&self) -> Seq<Seq<char>> {
        seq![self.audio@, self.word@, self.tags@]
    }

    proof fn lemma_fields_len(&self) {
    }

    fn remove_html(self) -> (r: Self) {
        let r = SimpleNote {
            audio: remove_html(self.audio.as_str()),
            word: remove_html(self.word.as_str()),
            tags: remove_html(self.tags.as_str()),
        };
        assert(r.fields() =~= strip_fields(self.fields()));
        r
    }

    fn into_line(self, separator: char) -> (r: String) {
        let v = vec![self.audio, self.word, self.tags];
        assert(views_of(v@) =~= self.fields());
        join_fields(&v, separator)
    }

    fn from_line(line: &str, separator: char) -> (r: Result<Self, Error>) {
        let v = decode_fields(line, separator, 3)?;
        assert(v@[0]@ == views_of(v@)[0] && v@[1]@ == views_of(v@)[1] && v@[2]@ == views_of(v@)[2]);
        let n = SimpleNote { audio: v[0].clone(), word: v[1].clone(), tags: v[2].clone() };
        assert(n.fields() =~= views_of(v@));
        Ok(n)
    }
}

} // verus!

use anki_conversion::{
    decode_fields, join_fields, lines_of, split_on, Error, MinimalPairNote, Note, SimpleNote,
    SpellingNote,
};

fn strings(v: &[&str]) -> Vec<String> {
    v.iter().map(|s| s.to_string()).collect()
}

fn minimal_pair(fields: [&str; 11]) -> MinimalPairNote {
    MinimalPairNote {
        word1: fields[0].to_string(),
        audio1: fields[1].to_string(),
        ipa1: fields[2].to_string(),
        word2: fields[3].to_string(),
        audio2: fields[4].to_string(),
        ipa2: fields[5].to_string(),
        word3: fields[6].to_string(),
        audio3: fields[7].to_string(),
        ipa3: fields[8].to_string(),
        compare_word3: fields[9].to_string(),
        tags: fields[10].to_string(),
    }
}

#[test]
fn join_fields_puts_separator_between() {
    assert_eq!(join_fields(&strings(&["a", "b", "c"]), ','), "a,b,c");
    assert_eq!(join_fields(&strings(&["", "x", ""]), '\t'), "\tx\t");
    assert_eq!(join_fields(&strings(&["only"]), ';'), "only");
    assert_eq!(join_fields(&Vec::new(), ';'), "");
}

#[test]
fn split_on_keeps_empty_segments() {
    assert_eq!(split_on("a,,b,", ','), strings(&["a", "", "b", ""]));
    assert_eq!(split_on("", ','), strings(&[""]));
    assert_eq!(split_on("æøå|x", '|'), strings(&["æøå", "x"]));
}

#[test]
fn lines_of_matches_str_lines() {
    for text in ["a\nb\n", "a\r\nb", "", "\n", "x\r", "a\n\nb\n\n", "one"] {
        let expected: Vec<String> = text.lines().map(|l| l.to_string()).collect();
        assert_eq!(lines_of(text), expected, "{text:?}");
    }
}

#[test]
fn decode_exact_arity_succeeds() {
    assert_eq!(decode_fields("a\tb\tc", '\t', 3), Ok(strings(&["a", "b", "c"])));
}

#[test]
fn decode_too_few_segments_is_too_many_struct_fields() {
    assert_eq!(decode_fields("a\tb", '\t', 3), Err(Error::TooManyStructFields(3, 2)));
    let r = SimpleNote::from_line("audio,word", ',');
    assert!(matches!(r, Err(Error::TooManyStructFields(3, 2))));
}

#[test]
fn decode_too_many_segments_is_not_enough_struct_fields() {
    assert_eq!(decode_fields("a\tb\tc\td", '\t', 3), Err(Error::NotEnoughStructFields(3, 4)));
    let r = SpellingNote::from_line("a,b,c,d,e,f", ',');
    assert!(matches!(r, Err(Error::NotEnoughStructFields(5, 6))));
    let r = MinimalPairNote::from_line("a,b,c,d,e,f,g,h,i,j,k,l", ',');
    assert!(matches!(r, Err(Error::NotEnoughStructFields(11, 12))));
}

#[test]
fn simple_note_round_trip() {
    let n = SimpleNote {
        audio: "[sound:a.mp3]".to_string(),
        word: "katt".to_string(),
        tags: "".to_string(),
    };
    let line = n.into_line('\t');
    assert_eq!(line, "[sound:a.mp3]\tkatt\t");
    let back = SimpleNote::from_line(&line, '\t').unwrap();
    assert_eq!(back.audio, "[sound:a.mp3]");
    assert_eq!(back.word, "katt");
    assert_eq!(back.tags, "");
}

#[test]
fn spelling_note_round_trip() {
    let line = "kj\tkjole\t<img src=\"k.jpg\">\t[sound:k.mp3]\tç";
    let n = SpellingNote::from_line(line, '\t').unwrap();
    assert_eq!(n.spelling, "kj");
    assert_eq!(n.picture, "<img src=\"k.jpg\">");
    assert_eq!(n.ipa, "ç");
    assert_eq!(n.into_line('\t'), line);
}

#[test]
fn minimal_pair_round_trip() {
    let n = minimal_pair([
        "hatt", "[sound:h.mp3]", "/hat/", "katt", "[sound:k.mp3]", "/kat/", "", "", "", "", "tag",
    ]);
    let line = n.into_line(';');
    assert_eq!(line, "hatt;[sound:h.mp3];/hat/;katt;[sound:k.mp3];/kat/;;;;;tag");
    let back = MinimalPairNote::from_line(&line, ';').unwrap();
    assert_eq!(back.word1, "hatt");
    assert_eq!(back.ipa2, "/kat/");
    assert_eq!(back.tags, "tag");
    assert_eq!(back.to_line(';'), line);
}

#[test]
fn separator_inside_a_field_breaks_the_round_trip() {
    let n = SimpleNote { audio: "a,b".to_string(), word: "w".to_string(), tags: "t".to_string() };
    let line = n.into_line(',');
    assert!(matches!(SimpleNote::from_line(&line, ','), Err(Error::NotEnoughStructFields(3, 4))));
}

#[test]
fn error_messages_name_the_failure() {
    assert_eq!(
        Error::HeaderEntryNotFound("separator".to_string()).message(),
        "Header entry not found: separator"
    );
    assert_eq!(Error::Io("disk full".to_string()).message(), "disk full");
    assert_eq!(
        Error::NotEnoughStructFields(3, 4).message(),
        "Number of struct fields (3) < fields per line in txt (4)"
    );
    assert_eq!(
        Error::TooManyStructFields(11, 120).message(),
        "Number of struct fields (11) > fields per line in txt (120)"
    );
    assert_eq!(Error::TooManyStructFields(0, 10).message(), "Number of struct fields (0) > fields per line in txt (10)");
    assert_eq!(Error::UnrecognisedSeparator("xyz".to_string()).message(), "Unrecognised separator: xyz");
}

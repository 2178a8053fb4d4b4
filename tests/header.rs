use anki_conversion::{
    body_of, extract_header, find_header_entry, parse_lines, parse_separator, separator_named,
    Error, FieldInfo, File, Header, MinimalPairNote, SimpleNote, SpellingNote,
};

#[test]
fn header_round_trip() {
    assert_eq!(extract_header("#a:1\n#b:2\ndata1\ndata2\n"), "#a:1\n#b:2\n");
    assert_eq!(extract_header("data\n#a:1\n"), "");
    assert_eq!(extract_header("#only"), "#only\n");
    assert_eq!(extract_header(""), "");
}

#[test]
fn find_header_entry_takes_first_match_anywhere() {
    let data = "#html:true\n#separator:tab\nrow\n#separator:comma\n";
    assert_eq!(find_header_entry(data, "separator"), Ok("tab".to_string()));
    assert_eq!(find_header_entry("x\n#deck:Norsk\n", "deck"), Ok("Norsk".to_string()));
    assert_eq!(
        find_header_entry("#html:true\n", "separator"),
        Err(Error::HeaderEntryNotFound("separator".to_string()))
    );
}

#[test]
fn separator_resolution() {
    assert_eq!(parse_separator("tab"), Ok('\t'));
    assert_eq!(parse_separator(","), Ok(','));
    assert_eq!(parse_separator("Comma"), Ok(','));
    assert_eq!(parse_separator("xyz"), Err(Error::UnrecognisedSeparator("xyz".to_string())));
}

#[test]
fn separator_names_and_single_characters() {
    assert_eq!(parse_separator("SPACE"), Ok(' '));
    assert_eq!(parse_separator("semicolon"), Ok(';'));
    assert_eq!(parse_separator("Pipe"), Ok('|'));
    assert_eq!(parse_separator("colon"), Ok(':'));
    assert_eq!(parse_separator("ø"), Ok('ø'));
    assert_eq!(parse_separator(""), Err(Error::UnrecognisedSeparator("".to_string())));
    assert_eq!(separator_named("Tab"), None);
    assert_eq!(separator_named("tab"), Some('\t'));
}

#[test]
fn field_info_from_text() {
    let info = FieldInfo::from_text("#separator:Semicolon\n#html:false\na;b;c\n").unwrap();
    assert_eq!(info.separator, ';');
    assert_eq!(info.header, "#separator:Semicolon\n#html:false\n");
    assert!(matches!(FieldInfo::from_text("a\tb\n"), Err(Error::HeaderEntryNotFound(_))));
    assert!(matches!(
        FieldInfo::from_text("#separator:dash\n"),
        Err(Error::UnrecognisedSeparator(v)) if v == "dash"
    ));
}

#[test]
fn body_of_skips_leading_header_lines() {
    let body = body_of("#a:1\n#b:2\nrow1\n#not header\nrow2\n");
    assert_eq!(body, vec!["row1".to_string(), "#not header".to_string(), "row2".to_string()]);
}

#[test]
fn parse_text_sorts_and_decodes_rows() {
    let data = "#separator:tab\n#tags column:3\n[k]\tkatt\t\n[b]\tbil\tt\n[h]\thatt\t\n";
    let file = File::<SimpleNote>::parse_text(data).unwrap();
    assert_eq!(file.header.separator, '\t');
    assert_eq!(file.header.header, "#separator:tab\n#tags column:3\n");
    let words: Vec<&str> = file.notes.iter().map(|n| n.word.as_str()).collect();
    assert_eq!(words, vec!["bil", "hatt", "katt"]);
    assert_eq!(file.to_text(), "#separator:tab\n#tags column:3\n[b]\tbil\tt\n[h]\thatt\t\n[k]\tkatt\t\n");
}

#[test]
fn parse_text_reports_the_first_bad_row_in_sorted_order() {
    let data = "#separator:,\nz,1,2,3,4\na,1\n";
    let r = File::<SpellingNote>::parse_text(data);
    assert!(matches!(r, Err(Error::TooManyStructFields(5, 2))));
    let r = File::<MinimalPairNote>::parse_text("#html:true\na,b\n");
    assert!(matches!(r, Err(Error::HeaderEntryNotFound(_))));
}

#[test]
fn parse_lines_decodes_each_line() {
    let lines = vec!["a|b|c".to_string(), "d|e|f".to_string()];
    let notes = parse_lines::<SimpleNote>(&lines, '|').unwrap();
    assert_eq!(notes[1].tags, "f");
    let bad = vec!["a|b|c".to_string(), "d|e|f|g".to_string()];
    assert!(matches!(parse_lines::<SimpleNote>(&bad, '|'), Err(Error::NotEnoughStructFields(3, 4))));
}

#[test]
fn to_text_of_an_empty_deck_is_the_header() {
    let file: File<SimpleNote> = File {
        header: Header { separator: ',', header: "#separator:comma\n".to_string() },
        notes: Vec::new(),
    };
    assert_eq!(file.to_text(), "#separator:comma\n");
}

#[test]
fn split_audio_separates_pronunciation_and_sound() {
    let n = SpellingNote {
        spelling: "kj".to_string(),
        word: "kjole".to_string(),
        picture: "".to_string(),
        audio: "<b>[ç]</b>[sound:kjole.mp3]".to_string(),
        ipa: "".to_string(),
    };
    let r = n.split_audio().unwrap();
    assert_eq!(r.ipa, "ç");
    assert_eq!(r.audio, "[sound:kjole.mp3]");
    assert_eq!(r.word, "kjole");
    let plain = SpellingNote {
        spelling: "s".to_string(),
        word: "w".to_string(),
        picture: "".to_string(),
        audio: "no sound".to_string(),
        ipa: "".to_string(),
    };
    assert!(plain.split_audio().is_none());
}

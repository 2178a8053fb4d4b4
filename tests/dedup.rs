use anki_conversion::{
    count_duplicate_pairs, deduplicate, pair_simple_notes, split_ipa_from_word, MinimalPairNote,
    Note, SimpleNote,
};

fn card(line: &str) -> MinimalPairNote {
    MinimalPairNote::from_line(line, '\t').unwrap()
}

fn lines(notes: Vec<MinimalPairNote>) -> Vec<String> {
    notes.into_iter().map(|n| n.to_line('\t')).collect()
}

fn assert_merged(m: &MinimalPairNote, word1: &str, audio1: &str, word2: &str, audio2: &str) {
    assert_eq!(m.word1, word1);
    assert_eq!(m.audio1, audio1);
    assert_eq!(m.ipa1, "/kat/");
    assert_eq!(m.word2, word2);
    assert_eq!(m.audio2, audio2);
    assert_eq!(m.ipa2, "");
    assert_eq!(m.word3, "");
    assert_eq!(m.audio3, "");
    assert_eq!(m.ipa3, "");
    assert_eq!(m.compare_word3, "");
    assert_eq!(m.tags, "");
}

#[test]
fn dedup_merge_example() {
    // A is the later card, B the earlier one.
    let a = card("katt\t[sound:a1.mp3]\t\thatt\t[sound:a2.mp3]\t\t\t\t\t\t");
    let b = card("katt\t[sound:b1.mp3]\t/kat/\thatt\t[sound:b2.mp3]\t\t\t\t\t\t");
    assert!(a.is_duplicate(&b));
    let m = MinimalPairNote::merge_duplicates(a, b);
    assert_merged(&m, "katt", "[sound:b1.mp3][sound:a1.mp3]", "hatt", "[sound:b2.mp3][sound:a2.mp3]");
}

#[test]
fn dedup_merges_sorted_duplicates() {
    let a = card("hatt\t[sound:a1.mp3]\t/kat/\tkatt\t[sound:a2.mp3]\t\t\t\t\t\t");
    let b = card("hatt\t[sound:b1.mp3]\t/hat/\tkatt\t[sound:b2.mp3]\t\t\t\t\t\t");
    let later = card("hatt\t[sound:a1.mp3]\t\tkatt\t[sound:a2.mp3]\t\t\t\t\t\t");
    let earlier = card("hatt\t[sound:b1.mp3]\t/kat/\tkatt\t[sound:b2.mp3]\t\t\t\t\t\t");
    let out = deduplicate(vec![earlier, later]);
    assert_eq!(out.len(), 1);
    assert_merged(&out[0], "hatt", "[sound:b1.mp3][sound:a1.mp3]", "katt", "[sound:b2.mp3][sound:a2.mp3]");
    let out = deduplicate(vec![b, a]);
    assert_eq!(out[0].audio1, "[sound:b1.mp3][sound:a1.mp3]");
    assert_eq!(out[0].ipa1, "/kat/");
}

#[test]
fn merge_prefers_the_later_pronunciation() {
    let earlier = card("bil\t[e1]\t/bi:l/\tpil\t[e2]\t/pi:l/\t\t\t\t\tt1");
    let later = card("bil\t[l1]\t/bil/\tpil\t[l2]\t\t\t\t\t\tt2");
    let m = MinimalPairNote::merge_duplicates(later, earlier);
    assert_eq!(m.audio1, "[e1][l1]");
    assert_eq!(m.ipa1, "/bil/");
    assert_eq!(m.audio2, "[e2][l2]");
    assert_eq!(m.ipa2, "/pi:l/");
    assert_eq!(m.tags, "");
}

#[test]
fn non_duplicate_pass_through() {
    let x = "bil\t[1]\t\tpil\t[2]\t\t\t\t\t\t";
    let y = "bil\t[3]\t\tvil\t[4]\t\t\t\t\t\t";
    let out = deduplicate(vec![card(x), card(y)]);
    assert_eq!(lines(out), vec![x.to_string(), y.to_string()]);
}

#[test]
fn third_word_is_never_a_duplicate() {
    let x = "bil\t[1]\t\tpil\t[2]\t\tfil\t\t\t\t";
    let y = "bil\t[3]\t\tpil\t[4]\t\t\t\t\t\t";
    let notes = vec![card(x), card(y)];
    assert!(!notes[0].is_duplicate(&notes[1]));
    assert_eq!(count_duplicate_pairs(&notes), 0);
    assert_eq!(lines(deduplicate(notes)), vec![x.to_string(), y.to_string()]);
}

#[test]
fn dedup_count_invariant() {
    let rows = [
        "and\t[1]\t\tand2\t[2]\t\t\t\t\t\t",
        "bil\t[1]\t\tpil\t[2]\t\t\t\t\t\t",
        "bil\t[3]\t\tpil\t[4]\t\t\t\t\t\t",
        "hus\t[1]\t\tmus\t[2]\t\t\t\t\t\t",
        "katt\t[1]\t\tkatte\t[2]\t\t\t\t\t\t",
        "katt\t[3]\t\tkatte\t[4]\t\t\t\t\t\t",
    ];
    let notes: Vec<MinimalPairNote> = rows.iter().map(|r| card(r)).collect();
    let k = count_duplicate_pairs(&notes);
    assert_eq!(k, 2);
    let out = deduplicate(notes);
    assert_eq!(out.len(), rows.len() - k);
    assert_eq!(out[1].audio1, "[1][3]");
    assert_eq!(out[3].audio2, "[2][4]");
}

#[test]
fn triple_merges_first_pair_only() {
    let rows = [
        "bil\t[1]\t\tpil\t[a]\t\t\t\t\t\t",
        "bil\t[2]\t\tpil\t[b]\t\t\t\t\t\t",
        "bil\t[3]\t\tpil\t[c]\t\t\t\t\t\t",
    ];
    let notes: Vec<MinimalPairNote> = rows.iter().map(|r| card(r)).collect();
    assert_eq!(count_duplicate_pairs(&notes), 2);
    let out = deduplicate(notes);
    assert_eq!(out.len(), 2);
    assert_eq!(out[0].audio1, "[1][2]");
    assert_eq!(lines(out)[1], rows[2]);
}

#[test]
fn dedup_of_empty_and_single() {
    assert!(deduplicate(Vec::new()).is_empty());
    let x = "a\t\t\tb\t\t\t\t\t\t\t";
    assert_eq!(lines(deduplicate(vec![card(x)])), vec![x.to_string()]);
    assert_eq!(count_duplicate_pairs(&Vec::new()), 0);
}

#[test]
fn split_ipa_from_word_cases() {
    assert_eq!(
        split_ipa_from_word("katt/kat/"),
        Some(("katt".to_string(), "kat".to_string()))
    );
    assert_eq!(split_ipa_from_word("katt /k/a/t/"), Some(("katt ".to_string(), "kat".to_string())));
    assert_eq!(split_ipa_from_word("/x"), Some(("".to_string(), "x".to_string())));
    assert_eq!(split_ipa_from_word("katt"), None);
}

#[test]
fn move_ipas_from_words_moves_each_word() {
    let n = card("hatt/hat/\t[1]\told\tkatt\t[2]\tkeep\ttatt/tat/\t[3]\t\ty\ttag");
    let r = n.move_ipas_from_words();
    assert_eq!(r.word1, "hatt");
    assert_eq!(r.ipa1, "hat");
    assert_eq!(r.word2, "katt");
    assert_eq!(r.ipa2, "keep");
    assert_eq!(r.word3, "tatt");
    assert_eq!(r.ipa3, "tat");
    assert_eq!(r.audio3, "[3]");
    assert_eq!(r.tags, "tag");
}

#[test]
fn simple_notes_pair_up() {
    let simple = vec![
        SimpleNote { audio: "[h]".to_string(), word: "hatt".to_string(), tags: "x".to_string() },
        SimpleNote { audio: "[k]".to_string(), word: "katt".to_string(), tags: "y".to_string() },
        SimpleNote { audio: "[b]".to_string(), word: "bil".to_string(), tags: "".to_string() },
        SimpleNote { audio: "[p]".to_string(), word: "pil".to_string(), tags: "".to_string() },
    ];
    let pairs = pair_simple_notes(&simple);
    assert_eq!(pairs.len(), 2);
    let first = MinimalPairNote::from_simple_notes(&simple[0], &simple[1]);
    assert_eq!(first.to_line(','), "hatt,[h],,katt,[k],,,,,,");
    assert_eq!(lines(pairs), vec![
        "hatt\t[h]\t\tkatt\t[k]\t\t\t\t\t\t".to_string(),
        "bil\t[b]\t\tpil\t[p]\t\t\t\t\t\t".to_string(),
    ]);
}

use anki_conversion::{remove_html, MinimalPairNote, Note, SimpleNote};

#[test]
fn remove_html_strips_tags_entities_and_quotes() {
    assert_eq!(remove_html("<b>katt</b>"), "katt");
    assert_eq!(remove_html("hei&nbsp;du"), "heidu");
    assert_eq!(remove_html("\"sitat\""), "sitat");
    assert_eq!(remove_html("<div class=\"x\">a&nbsp;\"b\"</div>"), "ab");
    assert_eq!(remove_html("plain"), "plain");
    assert_eq!(remove_html(""), "");
}

#[test]
fn remove_html_tags_are_non_greedy_and_single_line() {
    assert_eq!(remove_html("<i>a</i> < b > c"), "a  c");
    assert_eq!(remove_html("a < b"), "a < b");
    assert_eq!(remove_html("<a\nb>"), "<a\nb>");
    assert_eq!(remove_html("<<x>y>"), "y>");
}

#[test]
fn remove_html_twice_is_once() {
    for s in ["<b>katt</b>&nbsp;\"x\"", "a < b", "<a\nb>", "x>y<z", "&amp;"] {
        let once = remove_html(s);
        assert_eq!(remove_html(&once), once, "{s:?}");
    }
}

#[test]
fn remove_html_removes_entities_that_removal_forms() {
    assert_eq!(remove_html("&&nbsp;nbsp;"), "");
    assert_eq!(remove_html("&nbs&nbsp;p;"), "");
    assert_eq!(remove_html("&nb\"sp;"), "");
    assert_eq!(remove_html("&nb<i>sp;"), "");
    assert_eq!(remove_html("a&&&nbsp;nbsp;nbsp;b"), "ab");
    assert_eq!(remove_html("&nbsp"), "&nbsp");
}

#[test]
fn remove_html_keeps_clean_text() {
    for s in ["katt", "a < b", "<a\nb>", "x>y<z", "&amp;", ""] {
        assert_eq!(remove_html(s), s, "{s:?}");
    }
}

#[test]
fn remove_html_twice_is_once_on_formed_entities() {
    for s in ["&&nbsp;nbsp;", "&nbs&nbsp;p;", "&nb\"sp;", "<<b>>\"&nbsp;\"", "&<x>&nbsp;nbsp;"] {
        let once = remove_html(s);
        assert_eq!(remove_html(&once), once, "{s:?}");
        assert!(!once.contains("&nbsp;") && !once.contains('"'), "{s:?}");
    }
}

#[test]
fn note_remove_html_strips_every_field() {
    let n = SimpleNote {
        audio: "<b>[sound:a.mp3]</b>".to_string(),
        word: "\"katt\"".to_string(),
        tags: "t&nbsp;1".to_string(),
    };
    let r = n.remove_html();
    assert_eq!(r.audio, "[sound:a.mp3]");
    assert_eq!(r.word, "katt");
    assert_eq!(r.tags, "t1");
}

#[test]
fn clean_all_keeps_audio_and_tags() {
    let line = "<b>hatt</b>\t<i>[sound:h.mp3]</i>\t\"hat\"\tkatt\t\tkat\t\t\t\t<y>\t<t>";
    let n = MinimalPairNote::from_line(line, '\t').unwrap();
    let r = n.clean_all();
    assert_eq!(r.word1, "hatt");
    assert_eq!(r.audio1, "<i>[sound:h.mp3]</i>");
    assert_eq!(r.ipa1, "hat");
    assert_eq!(r.compare_word3, "<y>");
    assert_eq!(r.tags, "<t>");
}

#[test]
fn clean_all_twice_is_once() {
    let line = "&&nbsp;nbsp;\t[1]\t&nb\"sp;\t<b>katt</b>\t\t\t\t\t\t\t";
    let once = MinimalPairNote::from_line(line, '\t').unwrap().clean_all();
    assert_eq!(once.word1, "");
    assert_eq!(once.ipa1, "");
    assert_eq!(once.word2, "katt");
    let once_line = once.to_line('\t');
    let twice = MinimalPairNote::from_line(&once_line, '\t').unwrap().clean_all();
    assert_eq!(twice.to_line('\t'), once_line);
}

#[test]
fn minimal_pair_remove_html_strips_all_fields() {
    let line = "<b>hatt</b>\t<i>[sound:h.mp3]</i>\t\"hat\"\tkatt\t\tkat\t\t\t\t<y>\t<t>";
    let r = MinimalPairNote::from_line(line, '\t').unwrap().remove_html();
    assert_eq!(r.audio1, "[sound:h.mp3]");
    assert_eq!(r.compare_word3, "");
    assert_eq!(r.tags, "");
}

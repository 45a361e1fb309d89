use furigana_slides::align::split_ruby;
use furigana_slides::annotate::{annotate_word, annotate_words, auto_furigana, merge_text_segments, Word};
use furigana_slides::runs::group_by_char_type;
use furigana_slides::script::{contains_kanji, is_blank_text, is_kanji_char, katakana_to_hiragana};
use furigana_slides::segment::Segment;

fn shown(segments: &[Segment]) -> Vec<(String, String)> {
    segments
        .iter()
        .map(|s| match s {
            Segment::Text { content } => (content.clone(), String::new()),
            Segment::Ruby { base, reading } => (base.clone(), format!("({})", reading)),
        })
        .collect()
}

fn text(s: &str) -> (String, String) {
    (s.to_string(), String::new())
}

fn ruby(b: &str, r: &str) -> (String, String) {
    (b.to_string(), format!("({})", r))
}

fn word(surface: &str, reading: Option<&str>) -> Word {
    Word { surface: surface.to_string(), reading: reading.map(|r| r.to_string()) }
}

#[test]
fn mixed_word_splits_around_kana() {
    let r = split_ruby("お忙しい", "おいそがしい");
    assert_eq!(shown(&r), vec![text("お"), ruby("忙", "いそが"), text("しい")]);
}

#[test]
fn all_kanji_word_is_one_annotation() {
    let r = split_ruby("感謝", "かんしゃ");
    assert_eq!(shown(&r), vec![ruby("感謝", "かんしゃ")]);
}

#[test]
fn word_without_kanji_needs_no_reading() {
    let r = annotate_words(&vec![word("ABC", None)]);
    assert_eq!(shown(&r), vec![text("ABC")]);
    let r = annotate_words(&vec![word("ABC", Some("エービーシー"))]);
    assert_eq!(shown(&r), vec![text("ABC")]);
}

#[test]
fn unknown_reading_keeps_the_word_as_text() {
    let r = annotate_words(&vec![word("漢字", Some("*"))]);
    assert_eq!(shown(&r), vec![text("漢字")]);
    let r = annotate_words(&vec![word("漢字", None)]);
    assert_eq!(shown(&r), vec![text("漢字")]);
}

#[test]
fn missing_anchor_falls_back_to_whole_word() {
    let r = split_ruby("食べる", "たべない");
    assert_eq!(shown(&r), vec![ruby("食べる", "たべない")]);
}

#[test]
fn mismatched_kana_falls_back_to_whole_word() {
    let r = split_ruby("お茶", "ちゃ");
    assert_eq!(shown(&r), vec![ruby("お茶", "ちゃ")]);
}

#[test]
fn anchor_longer_than_reading_falls_back() {
    let r = split_ruby("見ている", "み");
    assert_eq!(shown(&r), vec![ruby("見ている", "み")]);
}

#[test]
fn leftmost_anchor_wins() {
    let r = split_ruby("気が付く", "きがつく");
    assert_eq!(shown(&r), vec![ruby("気", "き"), text("が"), ruby("付", "つ"), text("く")]);
}

#[test]
fn kanji_run_with_empty_reading_is_left_out() {
    let r = split_ruby("漢か", "か");
    assert_eq!(shown(&r), vec![text("か")]);
}

#[test]
fn trailing_kanji_takes_the_rest_of_the_reading() {
    let r = split_ruby("お茶", "おちゃ");
    assert_eq!(shown(&r), vec![text("お"), ruby("茶", "ちゃ")]);
}

#[test]
fn whitespace_input_comes_back_whole() {
    let r = auto_furigana("   ".to_string()).unwrap();
    assert_eq!(shown(&r), vec![text("   ")]);
    let r = auto_furigana("\t\u{3000}\n".to_string()).unwrap();
    assert_eq!(shown(&r), vec![text("\t\u{3000}\n")]);
}

#[test]
fn empty_input_gives_one_empty_text() {
    let r = auto_furigana(String::new()).unwrap();
    assert_eq!(shown(&r), vec![text("")]);
    let r = annotate_words(&Vec::new());
    assert_eq!(shown(&r), vec![text("")]);
}

#[test]
fn text_of_neighbouring_words_is_merged() {
    let r = annotate_words(&vec![word("A", None), word("B", None)]);
    assert_eq!(shown(&r), vec![text("AB")]);
}

#[test]
fn katakana_reading_is_aligned_in_hiragana() {
    let r = annotate_words(&vec![word("お忙しい", Some("オイソガシイ"))]);
    assert_eq!(shown(&r), vec![text("お"), ruby("忙", "いそが"), text("しい")]);
}

#[test]
fn words_merge_across_boundaries_but_not_annotations() {
    let r = annotate_words(&vec![
        word("今日", Some("キョウ")),
        word("は", Some("ハ")),
        word("、", None),
        word("感謝", Some("カンシャ")),
        word("です", Some("デス")),
    ]);
    assert_eq!(
        shown(&r),
        vec![ruby("今日", "きょう"), text("は、"), ruby("感謝", "かんしゃ"), text("です")]
    );
}

#[test]
fn annotate_word_passes_kana_through() {
    let r = annotate_word(&word("ありがとう", Some("アリガトウ")));
    assert_eq!(shown(&r), vec![text("ありがとう")]);
}

#[test]
fn merge_joins_runs_of_text_only() {
    let segs = vec![
        Segment::Text { content: "a".to_string() },
        Segment::Text { content: "b".to_string() },
        Segment::Ruby { base: "字".to_string(), reading: "じ".to_string() },
        Segment::Text { content: "c".to_string() },
        Segment::Ruby { base: "漢".to_string(), reading: "かん".to_string() },
        Segment::Ruby { base: "字".to_string(), reading: "じ".to_string() },
    ];
    let r = merge_text_segments(segs);
    assert_eq!(
        shown(&r),
        vec![text("ab"), ruby("字", "じ"), text("c"), ruby("漢", "かん"), ruby("字", "じ")]
    );
}

#[test]
fn merge_of_nothing_is_one_empty_text() {
    let r = merge_text_segments(Vec::new());
    assert_eq!(shown(&r), vec![text("")]);
}

#[test]
fn kanji_ranges() {
    assert!(is_kanji_char('漢'));
    assert!(is_kanji_char('\u{4E00}'));
    assert!(is_kanji_char('\u{9FFF}'));
    assert!(is_kanji_char('\u{3400}'));
    assert!(is_kanji_char('\u{4DBF}'));
    assert!(!is_kanji_char('\u{A000}'));
    assert!(!is_kanji_char('\u{33FF}'));
    assert!(!is_kanji_char('か'));
    assert!(!is_kanji_char('A'));
    assert!(contains_kanji("お忙しい"));
    assert!(!contains_kanji("おいそがしい"));
    assert!(!contains_kanji(""));
}

#[test]
fn katakana_shifts_onto_hiragana() {
    assert_eq!(katakana_to_hiragana("カタカナ"), "かたかな");
    assert_eq!(katakana_to_hiragana("ァヶ"), "ぁゖ");
    assert_eq!(katakana_to_hiragana("ラーメン"), "らーめん");
    assert_eq!(katakana_to_hiragana("漢字とABC"), "漢字とABC");
    assert_eq!(katakana_to_hiragana(""), "");
}

#[test]
fn blank_text_detection() {
    assert!(is_blank_text(""));
    assert!(is_blank_text(" \t\n\u{3000}"));
    assert!(!is_blank_text(" a "));
}

#[test]
fn runs_alternate_in_order() {
    let g = group_by_char_type("お忙しい日々");
    let expected: Vec<(bool, String)> = vec![
        (false, "お".to_string()),
        (true, "忙".to_string()),
        (false, "しい".to_string()),
        (true, "日".to_string()),
        (false, "々".to_string()),
    ];
    assert_eq!(g, expected);
    assert!(group_by_char_type("").is_empty());
    assert_eq!(group_by_char_type("漢字"), vec![(true, "漢字".to_string())]);
}

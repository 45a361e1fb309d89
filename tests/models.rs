use furigana_slides::manuscript::{FrontendSlide, Manuscript, ManuscriptFile, ManuscriptMeta, SlideEntry};
use furigana_slides::segment::Segment;
use furigana_slides::settings::{default_resolution_height, default_resolution_width, AppSettings};

fn entry(key: Option<&str>, word: &str, size: Option<u32>) -> SlideEntry {
    SlideEntry {
        key_binding: key.map(|k| k.to_string()),
        segments: vec![Segment::Text { content: word.to_string() }],
        font_size: size,
        font_color: None,
    }
}

#[test]
fn stored_manuscript_opens_with_slides_in_order() {
    let file = ManuscriptFile {
        manuscript: ManuscriptMeta { title: "発表".to_string(), created: "2024-01-01".to_string() },
        slides: vec![entry(Some("a"), "one", Some(40)), entry(None, "two", None)],
    };
    let m = Manuscript::from_file(file);
    assert_eq!(m.title, "発表");
    assert_eq!(m.created, "2024-01-01");
    assert_eq!(m.slides.len(), 2);
    assert_eq!(m.slides[0].key_binding.as_deref(), Some("a"));
    assert_eq!(m.slides[0].font_size, Some(40));
    assert!(matches!(&m.slides[0].segments[0], Segment::Text { content } if content == "one"));
    assert_eq!(m.slides[1].key_binding, None);
    assert!(matches!(&m.slides[1].segments[0], Segment::Text { content } if content == "two"));
}

#[test]
fn shown_manuscript_stores_with_slides_in_order() {
    let m = Manuscript {
        title: "t".to_string(),
        created: "c".to_string(),
        slides: vec![
            FrontendSlide {
                segments: vec![Segment::Ruby { base: "字".to_string(), reading: "じ".to_string() }],
                key_binding: None,
                font_size: Some(12),
                font_color: Some("#000000".to_string()),
            },
            FrontendSlide { segments: Vec::new(), key_binding: Some("b".to_string()), font_size: None, font_color: None },
        ],
    };
    let f = ManuscriptFile::from_manuscript(m);
    assert_eq!(f.manuscript.title, "t");
    assert_eq!(f.manuscript.created, "c");
    assert_eq!(f.slides.len(), 2);
    assert_eq!(f.slides[0].font_size, Some(12));
    assert_eq!(f.slides[0].font_color.as_deref(), Some("#000000"));
    assert!(matches!(&f.slides[0].segments[0], Segment::Ruby { base, reading } if base == "字" && reading == "じ"));
    assert_eq!(f.slides[1].key_binding.as_deref(), Some("b"));
    assert!(f.slides[1].segments.is_empty());
}

#[test]
fn empty_manuscript_round_trips() {
    let file = ManuscriptFile {
        manuscript: ManuscriptMeta { title: String::new(), created: String::new() },
        slides: Vec::new(),
    };
    let back = ManuscriptFile::from_manuscript(Manuscript::from_file(file));
    assert!(back.slides.is_empty());
}

#[test]
fn default_settings() {
    let s = AppSettings::default();
    assert_eq!(s.font.family, "Noto Sans JP");
    assert_eq!(s.font.default_size, 48);
    assert_eq!(s.font.default_color, "#FFFFFF");
    assert_eq!(s.ruby.family, "Noto Sans JP");
    assert_eq!(s.ruby.default_size, 24);
    assert_eq!(s.general.encoding, "UTF-8");
    assert_eq!(s.general.language, "ja");
    assert_eq!(s.general.theme, "dark");
    assert!(!s.general.auto_open_last_file);
    assert!(!s.general.auto_save);
    assert!(s.general.last_file_path.is_none());
    assert!(s.display.mirror);
    assert_eq!(s.display.resolution_width, 1920);
    assert_eq!(s.display.resolution_height, 1080);
}

#[test]
fn default_resolution() {
    assert_eq!(default_resolution_width(), 1920);
    assert_eq!(default_resolution_height(), 1080);
}

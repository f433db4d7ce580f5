use rustfin::subtitles::{build_title, is_lang_code, parse_sub_markers, SubtitleFormat};

#[test]
fn subtitle_format_detection() {
    assert_eq!(SubtitleFormat::from_extension("srt"), Some(SubtitleFormat::Srt));
    assert_eq!(SubtitleFormat::from_extension("SRT"), Some(SubtitleFormat::Srt));
    assert_eq!(SubtitleFormat::from_extension("ass"), Some(SubtitleFormat::Ass));
    assert_eq!(SubtitleFormat::from_extension("vtt"), Some(SubtitleFormat::Vtt));
    assert_eq!(SubtitleFormat::from_extension("sup"), Some(SubtitleFormat::Sup));
    assert_eq!(SubtitleFormat::from_extension("mp4"), None);
}

#[test]
fn parse_markers_english() {
    let (lang, forced, sdh) = parse_sub_markers("Movie.2020", "Movie.2020.en");
    assert_eq!(lang.as_deref(), Some("en"));
    assert!(!forced);
    assert!(!sdh);
}

#[test]
fn parse_markers_forced() {
    let (lang, forced, sdh) = parse_sub_markers("Movie.2020", "Movie.2020.en.forced");
    assert_eq!(lang.as_deref(), Some("en"));
    assert!(forced);
    assert!(!sdh);
}

#[test]
fn parse_markers_sdh() {
    let (lang, forced, sdh) = parse_sub_markers("Movie.2020", "Movie.2020.en.sdh");
    assert_eq!(lang.as_deref(), Some("en"));
    assert!(!forced);
    assert!(sdh);
}

#[test]
fn parse_markers_no_lang() {
    let (lang, forced, sdh) = parse_sub_markers("Movie.2020", "Movie.2020");
    assert!(lang.is_none());
    assert!(!forced);
    assert!(!sdh);
}

#[test]
fn subtitle_mime_types() {
    assert_eq!(SubtitleFormat::Srt.mime_type(), "application/x-subrip");
    assert_eq!(SubtitleFormat::Vtt.mime_type(), "text/vtt");
    assert_eq!(SubtitleFormat::Ass.mime_type(), "text/x-ssa");
    assert_eq!(SubtitleFormat::Sup.mime_type(), "application/octet-stream");
    assert_eq!(SubtitleFormat::Idx.mime_type(), "text/plain");
}

#[test]
fn lang_codes_two_and_three_letter() {
    assert!(is_lang_code("en"));
    assert!(is_lang_code("EN"));
    assert!(is_lang_code("eng"));
    assert!(!is_lang_code("english"));
    assert!(!is_lang_code("zz"));
}

#[test]
fn display_title_composition() {
    assert_eq!(build_title(&Some("en".to_string()), false, false), "EN");
    assert_eq!(build_title(&Some("fr".to_string()), true, false), "FR Forced");
    assert_eq!(build_title(&None, false, true), "Unknown SDH");
}

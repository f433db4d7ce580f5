use rustfin::artwork::{
    artwork_from_metadata, normalize_title_for_match, pick_best_search_provider_id, SearchResult,
};
use rustfin::merge::ItemMetadata;

fn hit(id: &str, title: &str, year: Option<i64>) -> SearchResult {
    SearchResult {
        provider_id: id.to_string(),
        title: title.to_string(),
        year,
        overview: None,
        poster_url: None,
    }
}

#[test]
fn title_normalisation_for_matching() {
    assert_eq!(normalize_title_for_match("The Matrix!"), "thematrix");
    assert_eq!(normalize_title_for_match("  Blade Runner 2049 "), "bladerunner2049");
    assert_eq!(normalize_title_for_match("ÉTÉ"), "été");
}

#[test]
fn best_hit_prefers_title_and_year() {
    let results = vec![
        hit("wrong-year", "The Matrix", Some(2003)),
        hit("exact", "The  Matrix", Some(1999)),
        hit("other", "Matrix Revisited", Some(1999)),
    ];
    let r = pick_best_search_provider_id("The Matrix", Some(1999), &results);
    assert_eq!(r.as_deref(), Some("exact"));

    // without a matching year the title alone decides
    let r = pick_best_search_provider_id("The Matrix", Some(1980), &results);
    assert_eq!(r.as_deref(), Some("wrong-year"));

    // with neither, a year match, then the first hit
    let r = pick_best_search_provider_id("Something Else", Some(2003), &results);
    assert_eq!(r.as_deref(), Some("wrong-year"));
    let r = pick_best_search_provider_id("Something Else", None, &results);
    assert_eq!(r.as_deref(), Some("wrong-year"));
    assert!(pick_best_search_provider_id("x", None, &vec![]).is_none());
}

#[test]
fn artwork_reads_metadata_urls() {
    let mut meta = ItemMetadata::empty();
    meta.poster_url = Some("p.jpg".to_string());
    meta.thumb_url = Some("t.jpg".to_string());
    let art = artwork_from_metadata(Some(&meta));
    assert_eq!(art.poster.as_deref(), Some("p.jpg"));
    assert_eq!(art.thumb.as_deref(), Some("t.jpg"));
    assert!(art.backdrop.is_none());
    let none = artwork_from_metadata(None);
    assert!(none.poster.is_none() && none.logo.is_none());
}

use rustfin::merge::{merge_metadata, ItemMetadata};

#[test]
fn merge_respects_locked_fields() {
    let mut current = ItemMetadata::empty();
    current.title = Some("Original Title".to_string());
    current.sort_title = Some("original title".to_string());
    current.year = Some(2020);

    let locked = vec!["title".to_string()];

    let mut provider = ItemMetadata::empty();
    provider.title = Some("New Title From Provider".to_string());
    provider.overview = Some("A great movie".to_string());
    provider.year = Some(2021);

    let result = merge_metadata(&current, &provider, &locked);

    // the locked title is never overwritten
    assert_eq!(result.metadata.title.as_deref(), Some("Original Title"));
    assert!(!result.updated_fields.contains(&"title".to_string()));

    // unlocked fields take the provider's values
    assert_eq!(result.metadata.overview.as_deref(), Some("A great movie"));
    assert!(result.updated_fields.contains(&"overview".to_string()));
    assert_eq!(result.metadata.year, Some(2021));
    assert!(result.updated_fields.contains(&"year".to_string()));
}

#[test]
fn merge_keeps_equal_values_silent() {
    let mut current = ItemMetadata::empty();
    current.title = Some("Same".to_string());
    let mut provider = ItemMetadata::empty();
    provider.title = Some("Same".to_string());

    let result = merge_metadata(&current, &provider, &vec![]);
    assert_eq!(result.metadata.title.as_deref(), Some("Same"));
    assert!(result.updated_fields.is_empty());
}

#[test]
fn merge_fills_blanks_only_from_provider() {
    let current = ItemMetadata::empty();
    let mut provider = ItemMetadata::empty();
    provider.genres = Some(vec!["Drama".to_string(), "Crime".to_string()]);
    provider.poster_url = Some("http://img/poster.jpg".to_string());

    let result = merge_metadata(&current, &provider, &vec![]);
    assert_eq!(
        result.metadata.genres,
        Some(vec!["Drama".to_string(), "Crime".to_string()])
    );
    assert_eq!(result.metadata.poster_url.as_deref(), Some("http://img/poster.jpg"));
    assert_eq!(
        result.updated_fields,
        vec!["genres".to_string(), "poster_url".to_string()]
    );
    // a provider without values changes nothing
    let noop = merge_metadata(&result.metadata, &ItemMetadata::empty(), &vec![]);
    assert!(noop.updated_fields.is_empty());
}

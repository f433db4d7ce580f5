use rustfin::parser::{
    extract_provider_ids, is_video_file, parse_filename, should_ignore, EpisodeInfo, MovieInfo,
    ParsedMedia,
};

#[test]
fn parse_sxxexx() {
    let r = parse_filename("Breaking.Bad.S02E05.Episode.Title.mkv");
    assert_eq!(
        r,
        ParsedMedia::Episode(EpisodeInfo {
            series_title: "Breaking Bad".into(),
            season: 2,
            episode: 5,
            episode_title: Some("Episode Title".into()),
        })
    );
}

#[test]
fn parse_sxxexx_lowercase() {
    let r = parse_filename("the.office.s01e01.pilot.mp4");
    assert_eq!(
        r,
        ParsedMedia::Episode(EpisodeInfo {
            series_title: "the office".into(),
            season: 1,
            episode: 1,
            episode_title: Some("pilot".into()),
        })
    );
}

#[test]
fn parse_xep_format() {
    let r = parse_filename("Seinfeld.3x12.avi");
    assert_eq!(
        r,
        ParsedMedia::Episode(EpisodeInfo {
            series_title: "Seinfeld".into(),
            season: 3,
            episode: 12,
            episode_title: None,
        })
    );
}

#[test]
fn parse_season_episode_format() {
    let r = parse_filename("Friends Season 2 Episode 14.mkv");
    assert_eq!(
        r,
        ParsedMedia::Episode(EpisodeInfo {
            series_title: "Friends".into(),
            season: 2,
            episode: 14,
            episode_title: None,
        })
    );
}

#[test]
fn parse_movie_with_year_paren() {
    let r = parse_filename("The Matrix (1999).mkv");
    assert_eq!(
        r,
        ParsedMedia::Movie(MovieInfo { title: "The Matrix".into(), year: Some(1999) })
    );
}

#[test]
fn parse_movie_with_year_dot() {
    let r = parse_filename("Inception.2010.1080p.BluRay.mkv");
    assert_eq!(
        r,
        ParsedMedia::Movie(MovieInfo { title: "Inception".into(), year: Some(2010) })
    );
}

#[test]
fn parse_movie_no_year() {
    let r = parse_filename("Some Random Movie.mp4");
    assert_eq!(
        r,
        ParsedMedia::Movie(MovieInfo { title: "Some Random Movie".into(), year: None })
    );
}

#[test]
fn ignore_patterns() {
    assert!(should_ignore(".DS_Store"));
    assert!(should_ignore("Thumbs.db"));
    assert!(should_ignore("movie.nfo"));
    assert!(should_ignore("poster.jpg"));
    assert!(!should_ignore("movie.mkv"));
}

#[test]
fn video_extension_check() {
    assert!(is_video_file("movie.mkv"));
    assert!(is_video_file("Movie.MP4"));
    assert!(is_video_file("ep.avi"));
    assert!(!is_video_file("poster.jpg"));
    assert!(!is_video_file("subs.srt"));
}

#[test]
fn provider_ids_extraction() {
    let ids = extract_provider_ids("Breaking Bad [tmdb=1396] [tvdb=81189]");
    assert_eq!(
        ids,
        vec![
            ("tmdb".to_string(), "1396".to_string()),
            ("tvdb".to_string(), "81189".to_string()),
        ]
    );
}

#[test]
fn provider_ids_imdb() {
    let ids = extract_provider_ids("The Matrix (1999) [imdb=tt0133093]");
    assert_eq!(ids, vec![("imdb".to_string(), "tt0133093".to_string())]);
}

#[test]
fn specials_season_zero() {
    let r = parse_filename("Show.Name.S00E01.Special.mkv");
    assert_eq!(
        r,
        ParsedMedia::Episode(EpisodeInfo {
            series_title: "Show Name".into(),
            season: 0,
            episode: 1,
            episode_title: Some("Special".into()),
        })
    );
}

#[test]
fn recognizes_common_video_extensions() {
    for name in [
        "a.mp4", "b.MKV", "c.mov", "d.m2ts", "e.webm", "f.avi", "g.mpeg", "h.ts", "i.m4v",
        "j.WMV", "k.flv", "l.3gp", "m.ogv", "n.vob", "o.mxf", "p.f4v", "q.3g2", "r.mts", "s.asf",
        "t.mpe", "u.mpv",
    ] {
        assert!(is_video_file(name), "should detect {name}");
    }
}

#[test]
fn rejects_non_video_files() {
    for name in ["notes.txt", "poster.jpg", "subs.srt", "metadata.nfo", "archive.zip"] {
        assert!(!is_video_file(name), "should NOT detect {name}");
    }
}

#[test]
fn clean_title_replaces_separators() {
    assert_eq!(rustfin::parser::clean_title("  The.Good_Show  "), "The Good Show");
}

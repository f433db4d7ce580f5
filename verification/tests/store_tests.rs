use rustfin::scan::{run_library_scan, MediaEntry};
use rustfin::session::SessionManager;
use rustfin::store::{verify_password, Store};
use rustfin::transcode::TranscoderConfig;
use rustfin::types::{ItemKind, JobStatus, LibraryKind, UserRole};

fn entry(path: &str) -> MediaEntry {
    MediaEntry { path: path.to_string(), size_bytes: 1000, mtime_ts: 0 }
}

#[test]
fn scan_movie_library_creates_items() {
    let mut store = Store::new();
    let lib = store
        .create_library("Films", LibraryKind::Movies, &vec!["/media/movies".to_string()], 0)
        .unwrap();
    let entries = vec![
        entry("/media/movies/The Matrix (1999)/The Matrix (1999).mkv"),
        entry("/media/movies/Inception (2010)/Inception.2010.mkv"),
    ];
    let res = run_library_scan(&mut store, &lib, LibraryKind::Movies, "/media/movies", &entries, 0)
        .unwrap();
    assert_eq!(res.added, 2);
    assert_eq!(res.skipped, 0);

    let items = store.get_library_items(&lib);
    assert_eq!(items.len(), 2);
    let matrix = items.iter().find(|i| i.title == "The Matrix").unwrap();
    assert_eq!(matrix.kind, ItemKind::Movie);
    assert_eq!(matrix.year, Some(1999));
    let inception = items.iter().find(|i| i.title == "Inception").unwrap();
    assert_eq!(inception.year, Some(2010));
}

#[test]
fn scan_tv_library_creates_series_hierarchy() {
    let mut store = Store::new();
    let lib = store
        .create_library("Shows", LibraryKind::TvShows, &vec!["/media/tv".to_string()], 0)
        .unwrap();
    let entries = vec![
        entry("/media/tv/Breaking Bad/Season 01/Breaking.Bad.S01E01.Pilot.mkv"),
        entry("/media/tv/Breaking Bad/Season 01/Breaking.Bad.S01E02.Cat's.in.the.Bag.mkv"),
        entry("/media/tv/Breaking Bad/Season 02/Breaking.Bad.S02E01.Seven.Thirty.Seven.mkv"),
    ];
    let res = run_library_scan(&mut store, &lib, LibraryKind::TvShows, "/media/tv", &entries, 0)
        .unwrap();
    assert_eq!(res.added, 3);

    let top = store.get_library_items(&lib);
    assert_eq!(top.len(), 1);
    assert_eq!(top[0].title, "Breaking Bad");
    assert_eq!(top[0].kind, ItemKind::Series);

    let seasons = store.get_children(&top[0].id);
    assert_eq!(seasons.len(), 2);
    assert!(seasons.iter().any(|s| s.title == "Season 1"));
    assert!(seasons.iter().any(|s| s.title == "Season 2"));

    let season1 = seasons.iter().find(|s| s.title == "Season 1").unwrap();
    assert_eq!(season1.kind, ItemKind::Season);
    let episodes = store.get_children(&season1.id);
    assert_eq!(episodes.len(), 2);
    assert!(episodes.iter().all(|e| e.kind == ItemKind::Episode));
}

#[test]
fn scan_is_idempotent() {
    let mut store = Store::new();
    let lib = store
        .create_library("Films", LibraryKind::Movies, &vec!["/m".to_string()], 0)
        .unwrap();
    let entries = vec![
        entry("/m/The Matrix (1999)/The Matrix (1999).mkv"),
        entry("/m/Inception (2010)/Inception.2010.mkv"),
    ];
    let first = run_library_scan(&mut store, &lib, LibraryKind::Movies, "/m", &entries, 0).unwrap();
    assert_eq!((first.added, first.skipped), (2, 0));
    let count_after_first = store.count_library_items(&lib);

    let second = run_library_scan(&mut store, &lib, LibraryKind::Movies, "/m", &entries, 1)
        .unwrap();
    assert_eq!((second.added, second.skipped), (0, 2));
    assert_eq!(store.count_library_items(&lib), count_after_first);
}

#[test]
fn find_or_create_item_is_idempotent() {
    let mut store = Store::new();
    let id1 = store
        .find_or_create_item("lib", ItemKind::Movie, None, "The Matrix", Some(1999), 0)
        .unwrap();
    let id2 = store
        .find_or_create_item("lib", ItemKind::Movie, None, "The Matrix", Some(1999), 5)
        .unwrap();
    assert_eq!(id1, id2);
}

#[test]
fn episode_parents_chain_to_series() {
    let mut store = Store::new();
    let series = store
        .find_or_create_item("lib", ItemKind::Series, None, "Show", None, 0)
        .unwrap();
    let season = store
        .find_or_create_item("lib", ItemKind::Season, Some(&series), "Season 1", None, 0)
        .unwrap();
    let episode = store
        .find_or_create_item("lib", ItemKind::Episode, Some(&season), "Pilot", None, 0)
        .unwrap();
    let ep = store.get_item(&episode).unwrap();
    assert_eq!(ep.parent_id.as_deref(), Some(season.as_str()));
    let se = store.get_item(&season).unwrap();
    assert_eq!(se.parent_id.as_deref(), Some(series.as_str()));
    assert_eq!(se.kind, ItemKind::Season);
    // an episode directly under a series is refused
    assert!(store
        .find_or_create_item("lib", ItemKind::Episode, Some(&series), "Stray", None, 0)
        .is_err());
}

#[test]
fn provider_id_upsert_keeps_one_row() {
    let mut store = Store::new();
    let item = store
        .find_or_create_item("lib", ItemKind::Movie, None, "Test", None, 0)
        .unwrap();
    store.set_provider_id(&item, "tmdb", "12345");
    store.set_provider_id(&item, "imdb", "tt1234567");
    let ids = store.get_provider_ids(&item);
    assert_eq!(ids.len(), 2);
    assert!(ids.iter().any(|(p, v)| p == "tmdb" && v == "12345"));
    assert!(ids.iter().any(|(p, v)| p == "imdb" && v == "tt1234567"));

    store.set_provider_id(&item, "tmdb", "99999");
    let ids = store.get_provider_ids(&item);
    assert_eq!(ids.len(), 2);
    assert!(ids.iter().any(|(p, v)| p == "tmdb" && v == "99999"));
    assert!(!ids.iter().any(|(_, v)| v == "12345"));
}

#[test]
fn update_progress_is_set_to() {
    let mut store = Store::new();
    store.update_progress("u1", "i1", 90_000, false, 10);
    store.update_progress("u1", "i1", 90_000, false, 10);
    let st = store.get_play_state("u1", "i1").unwrap();
    assert_eq!(st.progress_ms, 90_000);
    assert!(!st.played);
    assert_eq!(st.last_played_ts, Some(10));

    store.update_progress("u1", "i1", 0, true, 20);
    let st = store.get_play_state("u1", "i1").unwrap();
    assert!(st.played);
    assert_eq!(st.progress_ms, 0);
    assert!(store.get_play_state("u2", "i1").is_none());
}

#[test]
fn field_locks_round_trip() {
    let mut store = Store::new();
    store.lock_field("item", "title", 0);
    store.lock_field("item", "title", 5);
    store.lock_field("item", "overview", 5);
    let locked = store.get_locked_fields("item");
    assert_eq!(locked, vec!["title".to_string(), "overview".to_string()]);
    store.unlock_field("item", "title");
    assert_eq!(store.get_locked_fields("item"), vec!["overview".to_string()]);
}

#[test]
fn media_file_path_is_unique() {
    let mut store = Store::new();
    let id = store.create_media_file("/m/a.mkv", 10, 0, 0).unwrap();
    assert!(store.file_exists("/m/a.mkv"));
    assert!(!store.file_exists("/m/b.mkv"));
    assert!(store.create_media_file("/m/a.mkv", 10, 0, 0).is_err());
    let row = store.get_media_file(&id).unwrap();
    assert_eq!(row.path, "/m/a.mkv");
}

#[test]
fn file_maps_link_items_to_files() {
    let mut store = Store::new();
    let item = store
        .find_or_create_item("lib", ItemKind::Movie, None, "A", None, 0)
        .unwrap();
    let file = store.create_media_file("/m/a.mkv", 10, 0, 0).unwrap();
    store.create_file_map(&item, &file, "primary", 0).unwrap();
    assert_eq!(store.get_item_file_id(&item).as_deref(), Some(file.as_str()));
    assert_eq!(store.get_item_id_by_file_id(&file).as_deref(), Some(item.as_str()));
    assert_eq!(store.get_item_media_path(&item).as_deref(), Some("/m/a.mkv"));
}

#[test]
fn job_lifecycle() {
    let mut store = Store::new();
    let job = store.create_job("library_scan", None, 0).unwrap();
    assert_eq!(job.status, JobStatus::Queued);
    assert_eq!(job.progress_milli, 0);

    assert!(store.update_job_status(&job.id, JobStatus::Running, 0, None, 1));
    assert!(store.update_job_status(&job.id, JobStatus::Completed, 1000, None, 2));
    let row = store.get_job(&job.id).unwrap();
    assert_eq!(row.status, JobStatus::Completed);
    assert_eq!(row.progress_milli, 1000);

    // terminal jobs cannot be cancelled
    assert!(!store.cancel_job(&job.id, 3));
    let other = store.create_job("library_scan", None, 0).unwrap();
    assert!(store.cancel_job(&other.id, 3));
    assert_eq!(store.get_job(&other.id).unwrap().status, JobStatus::Cancelled);
    assert!(!store.update_job_status("no-such-job", JobStatus::Running, 0, None, 1));
}

#[test]
fn user_accounts_and_password_verification() {
    let mut store = Store::new();
    let id = store
        .create_user("alice", "a-long-password-123", UserRole::Admin, 0)
        .unwrap();
    // duplicate usernames are refused
    assert!(store.create_user("alice", "another-password-456", UserRole::User, 0).is_err());
    assert_eq!(store.count_users(), 1);

    let row = store.find_by_username("alice").unwrap();
    assert_eq!(row.id, id);
    assert_eq!(row.role, UserRole::Admin);
    // the stored hash verifies the right password and no other
    assert!(verify_password("a-long-password-123", &row.password_hash));
    assert!(!verify_password("wrong-password-999", &row.password_hash));
    assert!(store.find_by_id(&id).is_some());
    assert!(store.find_by_username("bob").is_none());
}

#[test]
fn library_access_replacement() {
    let mut store = Store::new();
    store.set_library_access("u1", &vec!["l1".to_string(), "l2".to_string()]);
    assert!(store.is_library_allowed("u1", "l1"));
    assert!(!store.is_library_allowed("u1", "l3"));
    store.set_library_access("u1", &vec!["l3".to_string()]);
    assert!(!store.is_library_allowed("u1", "l1"));
    assert!(store.is_library_allowed("u1", "l3"));
    assert_eq!(store.get_library_access("u1"), vec!["l3".to_string()]);
}

#[test]
fn libraries_and_settings() {
    let mut store = Store::new();
    let lib = store
        .create_library("Films", LibraryKind::Movies, &vec!["/a".to_string(), "/b".to_string()], 7)
        .unwrap();
    let row = store.get_library(&lib).unwrap();
    assert_eq!(row.name, "Films");
    assert_eq!(row.kind, LibraryKind::Movies);
    assert_eq!(store.list_libraries().len(), 1);
    let paths = store.get_library_paths(&lib);
    assert_eq!(paths.len(), 2);
    assert_eq!(paths[0].path, "/a");
    assert_eq!(paths[1].path, "/b");
    assert_eq!(store.get_all_library_paths(), vec!["/a".to_string(), "/b".to_string()]);

    store.set_setting("server_name", "Home");
    store.set_setting("server_name", "Den");
    assert_eq!(store.get_setting("server_name").as_deref(), Some("Den"));
    assert!(store.get_setting("missing").is_none());
}

#[test]
fn library_paths_replacement() {
    let mut store = Store::new();
    let lib = store
        .create_library("Films", LibraryKind::Movies, &vec!["/a".to_string()], 0)
        .unwrap();
    let other = store
        .create_library("Shows", LibraryKind::TvShows, &vec!["/tv".to_string()], 0)
        .unwrap();
    store
        .replace_library_paths(&lib, &vec!["/c".to_string(), "/d".to_string()])
        .unwrap();
    let paths: Vec<String> = store.get_library_paths(&lib).into_iter().map(|p| p.path).collect();
    assert_eq!(paths, vec!["/c".to_string(), "/d".to_string()]);
    // the other library's paths stay as they were
    let other_paths: Vec<String> =
        store.get_library_paths(&other).into_iter().map(|p| p.path).collect();
    assert_eq!(other_paths, vec!["/tv".to_string()]);
}

#[test]
fn library_settings_upsert() {
    let mut store = Store::new();
    let lib = store
        .create_library("Films", LibraryKind::Movies, &vec!["/a".to_string()], 0)
        .unwrap();
    // library creation writes the defaults
    let s = store.get_library_settings(&lib).unwrap();
    assert!(s.show_images && s.prefer_local_artwork && s.fetch_online_artwork);
    store.upsert_library_settings(&lib, false, true, false);
    let s = store.get_library_settings(&lib).unwrap();
    assert!(!s.show_images);
    assert!(s.prefer_local_artwork);
    assert!(!s.fetch_online_artwork);
}

#[test]
fn delete_library_cascades() {
    let mut store = Store::new();
    let lib = store
        .create_library("Films", LibraryKind::Movies, &vec!["/m".to_string()], 0)
        .unwrap();
    let other = store
        .create_library("Shows", LibraryKind::TvShows, &vec!["/tv".to_string()], 0)
        .unwrap();
    let entries = vec![entry("/m/The Matrix (1999)/The Matrix (1999).mkv")];
    run_library_scan(&mut store, &lib, LibraryKind::Movies, "/m", &entries, 0).unwrap();
    let item = store.get_library_items(&lib)[0].id.clone();
    store.set_provider_id(&item, "tmdb", "603");
    store.lock_field(&item, "title", 0);
    store.update_progress("u1", &item, 500, false, 0);
    store.set_library_access("u1", &vec![lib.clone(), other.clone()]);

    assert!(store.delete_library(&lib));
    // the library, its paths, settings and items are gone, with the rows
    // hanging off the items and the users' access to it
    assert!(store.get_library(&lib).is_none());
    assert!(store.get_library_paths(&lib).is_empty());
    assert!(store.get_library_settings(&lib).is_none());
    assert_eq!(store.count_library_items(&lib), 0);
    assert!(store.get_item(&item).is_none());
    assert!(store.get_item_file_id(&item).is_none());
    assert!(store.get_provider_ids(&item).is_empty());
    assert!(store.get_locked_fields(&item).is_empty());
    assert!(store.get_play_state("u1", &item).is_none());
    assert!(!store.is_library_allowed("u1", &lib));
    // the other library and the media-file rows stay
    assert!(store.get_library(&other).is_some());
    assert!(store.is_library_allowed("u1", &other));
    assert!(store.file_exists("/m/The Matrix (1999)/The Matrix (1999).mkv"));
    // deleting again reports nothing to delete
    assert!(!store.delete_library(&lib));
}

#[test]
fn library_rename_and_artwork_write_back() {
    let mut store = Store::new();
    let lib = store
        .create_library("Films", LibraryKind::Movies, &vec!["/m".to_string()], 0)
        .unwrap();
    assert!(store.update_library(&lib, Some("Movies"), 9));
    let row = store.get_library(&lib).unwrap();
    assert_eq!(row.name, "Movies");
    assert_eq!(row.updated_ts, 9);
    assert!(!store.update_library(&lib, None, 10));
    assert!(!store.update_library("no-such-library", Some("X"), 10));

    let item = store
        .find_or_create_item(&lib, ItemKind::Movie, None, "A", None, 0)
        .unwrap();
    assert!(store.update_item_artwork(
        &item,
        Some("poster.jpg"),
        Some("backdrop.jpg"),
        None,
        None,
        11
    ));
    let it = store.get_item(&item).unwrap();
    assert_eq!(it.poster_url.as_deref(), Some("poster.jpg"));
    assert_eq!(it.backdrop_url.as_deref(), Some("backdrop.jpg"));
    assert!(it.logo_url.is_none());
    assert_eq!(it.updated_ts, 11);
    assert!(!store.update_item_artwork("nope", None, None, None, None, 12));
}

#[test]
fn descendant_media_path_walks_the_tree() {
    let mut store = Store::new();
    let series = store
        .find_or_create_item("lib", ItemKind::Series, None, "Show", None, 0)
        .unwrap();
    let season = store
        .find_or_create_item("lib", ItemKind::Season, Some(&series), "Season 1", None, 0)
        .unwrap();
    let episode = store
        .find_or_create_item("lib", ItemKind::Episode, Some(&season), "Pilot", None, 0)
        .unwrap();
    // nothing is linked yet
    assert!(store.get_first_descendant_media_path(&series).is_none());

    let file = store.create_media_file("/tv/pilot.mkv", 10, 0, 0).unwrap();
    store.create_file_map(&episode, &file, "primary", 0).unwrap();
    // the grandchild's file answers for the series and the season alike
    assert_eq!(
        store.get_first_descendant_media_path(&series).as_deref(),
        Some("/tv/pilot.mkv")
    );
    assert_eq!(
        store.get_first_descendant_media_path(&season).as_deref(),
        Some("/tv/pilot.mkv")
    );
    assert_eq!(
        store.get_first_descendant_media_path(&episode).as_deref(),
        Some("/tv/pilot.mkv")
    );
    // an unrelated item sees nothing
    let movie = store
        .find_or_create_item("lib", ItemKind::Movie, None, "Other", None, 0)
        .unwrap();
    assert!(store.get_first_descendant_media_path(&movie).is_none());
}

#[test]
fn session_count_is_exact_for_fresh_ids() {
    // two creations with distinct ids leave two active sessions
    let mut mgr = SessionManager::new(TranscoderConfig::default());
    let p1 = mgr.create_session("/a.mkv".to_string(), None, None, 0).unwrap();
    assert_eq!(mgr.active_count(), 1);
    let p2 = mgr.create_session("/b.mkv".to_string(), None, None, 0).unwrap();
    assert_ne!(p1.session_id, p2.session_id);
    assert_eq!(mgr.active_count(), 2);
}

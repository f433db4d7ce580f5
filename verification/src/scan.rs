//! The library scan: walk results go in, the item hierarchy and media-file
//! rows come out, idempotently.
//!
//! The filesystem walk is I/O done outside the library; it hands in one
//! `MediaEntry` per discovered video file. Known paths are skipped, new
//! paths are parsed (against the folder name first for movies, against the
//! series directory for episodes without a series title) and recorded as
//! items, a media file, and the link between them.
//!
//! Scanning is idempotent: the contract of `run_library_scan` says that a
//! run over entries whose paths are all recorded already changes nothing
//! and reports them all as skipped — which is exactly what a second
//! back-to-back run sees, since the first run records every entry's path.

use crate::parser::{
    parse_filename, parse_filename_spec, tags_from, EpisodeInfo, MediaParse, MovieInfo,
    ParsedMedia,
};
use crate::store::{contains_file_path, item_key_matches, MediaFileModel, Store, StoreError};
use crate::strutil::{
    chars_of, first_index_from, is_space_char, last_index_of, run_len, string_from_chars,
    sub_chars, trim_spec,
};
use crate::types::{ItemKind, LibraryKind};
use vstd::prelude::*;
use vstd::string::StringExecFns;

verus! {

/// Entry discovered during a filesystem walk.
#[derive(Debug, Clone)]
pub struct MediaEntry {
    pub path: String,
    pub size_bytes: i64,
    pub mtime_ts: i64,
}

/// What a scan did: newly recorded files and already-known (or unusable)
/// files.
#[derive(Debug, Clone, Copy, PartialEq, Eq, Structural)]
pub struct ScanResult {
    pub added: usize,
    pub skipped: usize,
}

// ─── relative paths ──────────────────────────────────────────────────────

pub open spec fn slashp() -> spec_fn(char) -> bool {
    |c: char| c == '/'
}

/// A walk path relative to the library root: the root prefix and the
/// separators after it are dropped; a path outside the root is kept whole.
pub open spec fn rel_of(path: Seq<char>, root: Seq<char>) -> Seq<char> {
    if path.len() >= root.len() && path.subrange(0, root.len() as int) == root {
        let rest = path.subrange(root.len() as int, path.len() as int);
        rest.subrange(run_len(rest, 0, slashp()), rest.len() as int)
    } else {
        path
    }
}

fn exec_rel_of(path: &str, root: &str) -> (r: Vec<char>)
    ensures
        r@ == rel_of(path@, root@),
{
    let pv = chars_of(path);
    let rv = chars_of(root);
    if rv.len() > pv.len() {
        return pv;
    }
    if !crate::strutil::match_at(&pv, &rv, 0) {
        return pv;
    }
    let rest = sub_chars(&pv, rv.len(), pv.len());
    let n: usize = rest.len();
    let mut i: usize = 0;
    while i < n && rest[i] == '/'
        invariant
            0 <= i <= n,
            n == rest@.len(),
            run_len(rest@, 0, slashp()) == i + run_len(rest@, i as int, slashp()),
        decreases n - i,
    {
        i += 1;
    }
    sub_chars(&rest, i, n)
}

// ─── entry parsing ───────────────────────────────────────────────────────

/// Parse a relative path as a movie: the folder name wins when it carries a
/// year, else the file name decides.
pub open spec fn movie_entry_spec(rel: Seq<char>) -> MediaParse {
    match last_index_of(rel, '/') {
        Some(d) => if d > 0 {
            let folder = rel.subrange(0, d);
            match parse_filename_spec(folder) {
                MediaParse::Movie(m) => if m.year is Some {
                    MediaParse::Movie(m)
                } else {
                    parse_filename_spec(rel.subrange(d + 1, rel.len() as int))
                },
                _ => parse_filename_spec(rel.subrange(d + 1, rel.len() as int)),
            }
        } else {
            parse_filename_spec(rel.subrange(d + 1, rel.len() as int))
        },
        None => parse_filename_spec(rel),
    }
}

/// Parse a relative path for a movie entry.
pub fn parse_movie_entry(rel: &str) -> (r: ParsedMedia)
    ensures
        r@ == movie_entry_spec(rel@),
{
    let v = chars_of(rel);
    match crate::strutil::exec_last_index_of(&v, '/') {
        Some(d) => {
            let name_chars = sub_chars(&v, d + 1, v.len());
            let name = string_from_chars(&name_chars);
            if d > 0 {
                let folder_chars = sub_chars(&v, 0, d);
                let folder = string_from_chars(&folder_chars);
                let parsed = parse_filename(folder.as_str());
                let folder_hit: bool = match &parsed {
                    ParsedMedia::Movie(m) => m.year.is_some(),
                    _ => false,
                };
                if folder_hit {
                    return parsed;
                }
            }
            parse_filename(name.as_str())
        },
        None => parse_filename(rel),
    }
}

/// The series directory of a relative path: its first component.
pub open spec fn series_dir_spec(rel: Seq<char>) -> Seq<char> {
    match first_index_from(rel, 0, '/') {
        Some(d) => rel.subrange(0, d),
        None => rel,
    }
}

/// A bracketed tag `[` … `]` (no line break inside) starts at `i`.
pub open spec fn spanp() -> spec_fn(char) -> bool {
    |c: char| c != ']' && c != '\n'
}

pub open spec fn span_at(s: Seq<char>, i: int) -> bool {
    let v = run_len(s, i + 1, spanp());
    0 <= i < s.len() && s[i] == '[' && i + 1 + v < s.len() && s[i + 1 + v] == ']'
}

pub open spec fn span_end(s: Seq<char>, i: int) -> int {
    i + 2 + run_len(s, i + 1, spanp())
}

/// The text with every bracketed tag removed, together with the spaces
/// around it.
pub open spec fn strip_tags_from(s: Seq<char>, i: int) -> Seq<char>
    decreases s.len() - i,
    via strip_tags_dec
{
    if i < 0 || i >= s.len() {
        Seq::empty()
    } else if is_space_char(s[i]) {
        let r = run_len(s, i, crate::parser::spacep());
        if span_at(s, i + r) {
            strip_tags_from(s, i + r)
        } else {
            s.subrange(i, i + r) + strip_tags_from(s, i + r)
        }
    } else if span_at(s, i) {
        let j = span_end(s, i);
        strip_tags_from(s, j + run_len(s, j, crate::parser::spacep()))
    } else {
        seq![s[i]] + strip_tags_from(s, i + 1)
    }
}

#[via_fn]
proof fn strip_tags_dec(s: Seq<char>, i: int) {
    if 0 <= i < s.len() {
        if is_space_char(s[i]) {
            crate::strutil::lemma_run_len_bounds(s, i + 1, crate::parser::spacep());
            assert(run_len(s, i, crate::parser::spacep()) == 1 + run_len(
                s,
                i + 1,
                crate::parser::spacep(),
            ));
        } else if span_at(s, i) {
            crate::strutil::lemma_run_len_bounds(s, i + 1, spanp());
            let j = span_end(s, i);
            crate::strutil::lemma_run_len_bounds(s, j, crate::parser::spacep());
        }
    }
}

/// The series title taken from a directory name: bracketed tags stripped
/// and the rest trimmed; an empty result falls back to the whole name.
pub open spec fn series_title_of_dir(dir: Seq<char>) -> Seq<char> {
    if tags_from(dir, 0).len() > 0 {
        let cleaned = trim_spec(strip_tags_from(dir, 0));
        if cleaned.len() == 0 {
            dir
        } else {
            cleaned
        }
    } else {
        dir
    }
}

fn exec_strip_tags(v: &Vec<char>) -> (r: Vec<char>)
    ensures
        r@ == strip_tags_from(v@, 0),
{
    let n: usize = v.len();
    let mut out: Vec<char> = Vec::new();
    let mut i: usize = 0;
    while i < n
        invariant
            0 <= i <= n,
            n == v@.len(),
            strip_tags_from(v@, 0) == out@ + strip_tags_from(v@, i as int),
        decreases n - i,
    {
        let c = v[i];
        if crate::strutil::exec_is_space(c) {
            let r = space_run(v, i);
            proof {
                crate::strutil::lemma_run_len_bounds(v@, i + 1 as int, crate::parser::spacep());
                assert(run_len(v@, i as int, crate::parser::spacep()) == 1 + run_len(
                    v@,
                    i + 1 as int,
                    crate::parser::spacep(),
                ));
            }
            if check_span_at(v, i + r) {
                i = i + r;
            } else {
                let ghost old_out = out@;
                let mut piece = sub_chars(v, i, i + r);
                out.append(&mut piece);
                proof {
                    assert(out@ =~= old_out + v@.subrange(i as int, i + r as int));
                    assert(old_out + (v@.subrange(i as int, i + r) + strip_tags_from(
                        v@,
                        i + r as int,
                    )) =~= out@ + strip_tags_from(v@, i + r as int));
                }
                i = i + r;
            }
        } else if check_span_at(v, i) {
            proof {
                crate::strutil::lemma_run_len_bounds(v@, i + 1 as int, spanp());
            }
            let inner = span_run(v, i + 1);
            let j = i + 2 + inner;
            proof {
                crate::strutil::lemma_run_len_bounds(v@, j as int, crate::parser::spacep());
            }
            let sp = space_run(v, j);
            i = j + sp;
        } else {
            let ghost old_out = out@;
            out.push(c);
            proof {
                assert(out@ =~= old_out + seq![v@[i as int]]);
                assert(old_out + (seq![v@[i as int]] + strip_tags_from(v@, i + 1 as int))
                    =~= out@ + strip_tags_from(v@, i + 1 as int));
            }
            i += 1;
        }
    }
    proof {
        assert(out@ + strip_tags_from(v@, n as int) =~= out@);
    }
    out
}

fn space_run(v: &Vec<char>, i: usize) -> (r: usize)
    requires
        i <= v@.len(),
    ensures
        i + r <= v@.len(),
        r == run_len(v@, i as int, crate::parser::spacep()),
{
    let n: usize = v.len();
    let mut j: usize = i;
    while j < n && crate::strutil::exec_is_space(v[j])
        invariant
            i <= j <= n,
            n == v@.len(),
            run_len(v@, i as int, crate::parser::spacep()) == (j - i) + run_len(
                v@,
                j as int,
                crate::parser::spacep(),
            ),
        decreases n - j,
    {
        j += 1;
    }
    j - i
}

fn span_run(v: &Vec<char>, i: usize) -> (r: usize)
    requires
        i <= v@.len(),
    ensures
        i + r <= v@.len(),
        r == run_len(v@, i as int, spanp()),
{
    let n: usize = v.len();
    let mut j: usize = i;
    while j < n && v[j] != ']' && v[j] != '\n'
        invariant
            i <= j <= n,
            n == v@.len(),
            run_len(v@, i as int, spanp()) == (j - i) + run_len(v@, j as int, spanp()),
        decreases n - j,
    {
        j += 1;
    }
    j - i
}

fn check_span_at(v: &Vec<char>, i: usize) -> (r: bool)
    requires
        i <= v@.len(),
    ensures
        r == span_at(v@, i as int),
{
    let n: usize = v.len();
    if i >= n {
        return false;
    }
    if v[i] != '[' {
        return false;
    }
    let inner = span_run(v, i + 1);
    i + 1 + inner < n && v[i + 1 + inner] == ']'
}

/// The episode parse of a relative path: the file name decides; a missing
/// series title falls back to the series directory, its tags stripped.
pub open spec fn tv_entry_spec(rel: Seq<char>) -> MediaParse {
    let name = match last_index_of(rel, '/') {
        Some(d) => rel.subrange(d + 1, rel.len() as int),
        None => rel,
    };
    match parse_filename_spec(name) {
        MediaParse::Episode(e) => if e.series_title.len() == 0 {
            MediaParse::Episode(
                crate::parser::EpisodeParse {
                    series_title: series_title_of_dir(series_dir_spec(rel)),
                    ..e
                },
            )
        } else {
            MediaParse::Episode(e)
        },
        other => other,
    }
}

/// Parse a relative path for a TV entry.
pub fn parse_tv_entry(rel: &str) -> (r: ParsedMedia)
    ensures
        r@ == tv_entry_spec(rel@),
{
    let v = chars_of(rel);
    let name_chars = match crate::strutil::exec_last_index_of(&v, '/') {
        Some(d) => sub_chars(&v, d + 1, v.len()),
        None => sub_chars(&v, 0, v.len()),
    };
    proof {
        assert(v@.subrange(0, v@.len() as int) =~= v@);
    }
    let name = string_from_chars(&name_chars);
    let parsed = parse_filename(name.as_str());
    match parsed {
        ParsedMedia::Episode(e) => {
            if e.series_title.as_str().unicode_len() == 0 {
                let dir = find_series_dir(rel);
                let dv = chars_of(dir.as_str());
                let tags = crate::parser::extract_provider_ids(dir.as_str());
                let series_title: String = if tags.len() > 0 {
                    let stripped = exec_strip_tags(&dv);
                    let cleaned = crate::strutil::exec_trim(&stripped);
                    if cleaned.len() == 0 {
                        dir
                    } else {
                        string_from_chars(&cleaned)
                    }
                } else {
                    dir
                };
                proof {
                    assert(series_title@ == series_title_of_dir(series_dir_spec(rel@)));
                    assert(e.series_title@.len() == 0);
                }
                ParsedMedia::Episode(
                    EpisodeInfo {
                        series_title,
                        season: e.season,
                        episode: e.episode,
                        episode_title: e.episode_title,
                    },
                )
            } else {
                ParsedMedia::Episode(e)
            }
        },
        other => other,
    }
}

/// Walk up from the file to find the series root directory name: the first
/// path component.
pub fn find_series_dir(rel: &str) -> (r: String)
    ensures
        r@ == series_dir_spec(rel@),
{
    let v = chars_of(rel);
    match crate::strutil::exec_first_index_of(&v, '/') {
        Some(d) => {
            let c = sub_chars(&v, 0, d);
            string_from_chars(&c)
        },
        None => String::from_str(rel),
    }
}


// ─── recording entries ───────────────────────────────────────────────────

/// The display title of a season: `Season N`, or `Specials` for season 0.
pub open spec fn season_title_spec(season: u32) -> Seq<char> {
    if season == 0 {
        "Specials"@
    } else {
        "Season "@ + crate::strutil::dec_str(season as nat)
    }
}

/// The display title of an episode without one of its own: `Episode N`.
pub open spec fn episode_title_spec(info: crate::parser::EpisodeParse) -> Seq<char> {
    match info.episode_title {
        Some(t) => t,
        None => "Episode "@ + crate::strutil::dec_str(info.episode as nat),
    }
}

fn season_title(season: u32) -> (r: String)
    ensures
        r@ == season_title_spec(season),
{
    if season == 0 {
        String::from_str("Specials")
    } else {
        let mut s = String::from_str("Season ");
        let num = crate::strutil::u64_to_dec_string(season as u64);
        s.append(num.as_str());
        s
    }
}

/// The tables a scan never touches stay as they were.
pub open spec fn scan_leaves_rest(m0: crate::store::StoreModel, m1: crate::store::StoreModel) -> bool {
    &&& m1.libraries == m0.libraries
    &&& m1.library_paths == m0.library_paths
    &&& m1.library_settings == m0.library_settings
    &&& m1.provider_ids == m0.provider_ids
    &&& m1.field_locks == m0.field_locks
    &&& m1.play_states == m0.play_states
    &&& m1.users == m0.users
    &&& m1.user_access == m0.user_access
    &&& m1.settings == m0.settings
    &&& m1.jobs == m0.jobs
}

/// A scan only inserts: every item, media-file and file-map row that stood
/// before still stands, unchanged, at its index.
pub open spec fn tables_grow_only(m0: crate::store::StoreModel, m1: crate::store::StoreModel) -> bool {
    &&& m1.items.len() >= m0.items.len()
    &&& forall|k: int| 0 <= k < m0.items.len() ==> #[trigger] m1.items[k] == m0.items[k]
    &&& m1.media_files.len() >= m0.media_files.len()
    &&& forall|k: int|
        0 <= k < m0.media_files.len() ==> #[trigger] m1.media_files[k] == m0.media_files[k]
    &&& m1.file_maps.len() >= m0.file_maps.len()
    &&& forall|k: int|
        0 <= k < m0.file_maps.len() ==> #[trigger] m1.file_maps[k] == m0.file_maps[k]
}

/// Growing only composes.
pub proof fn lemma_grow_only_trans(
    m0: crate::store::StoreModel,
    m1: crate::store::StoreModel,
    m2: crate::store::StoreModel,
)
    requires
        tables_grow_only(m0, m1),
        tables_grow_only(m1, m2),
    ensures
        tables_grow_only(m0, m2),
{
}

/// A movie entry is recorded: a movie item under the scanner key, a
/// media-file row with the entry's path, and a primary link between them.
pub open spec fn movie_recorded(
    m: crate::store::StoreModel,
    library_id: Seq<char>,
    title: Seq<char>,
    path: Seq<char>,
) -> bool {
    exists|k: int, j: int, f: int|
        {
            &&& 0 <= k < m.items.len()
            &&& 0 <= j < m.file_maps.len()
            &&& 0 <= f < m.media_files.len()
            &&& item_key_matches(#[trigger] m.items[k], library_id, ItemKind::Movie, None, title)
            &&& (#[trigger] m.file_maps[j]).item_id == m.items[k].id
            &&& m.file_maps[j].file_id == (#[trigger] m.media_files[f]).id
            &&& m.file_maps[j].map_kind == "primary"@
            &&& m.media_files[f].path == path
        }
}

/// Recorded rows survive an inserts-only step.
pub proof fn lemma_movie_recorded_grows(
    m1: crate::store::StoreModel,
    m2: crate::store::StoreModel,
    library_id: Seq<char>,
    title: Seq<char>,
    path: Seq<char>,
)
    requires
        tables_grow_only(m1, m2),
        movie_recorded(m1, library_id, title, path),
    ensures
        movie_recorded(m2, library_id, title, path),
{
    let (k, j, f) = choose|k: int, j: int, f: int|
        {
            &&& 0 <= k < m1.items.len()
            &&& 0 <= j < m1.file_maps.len()
            &&& 0 <= f < m1.media_files.len()
            &&& item_key_matches(#[trigger] m1.items[k], library_id, ItemKind::Movie, None, title)
            &&& (#[trigger] m1.file_maps[j]).item_id == m1.items[k].id
            &&& m1.file_maps[j].file_id == (#[trigger] m1.media_files[f]).id
            &&& m1.file_maps[j].map_kind == "primary"@
            &&& m1.media_files[f].path == path
        };
    assert(m2.items[k] == m1.items[k]);
    assert(m2.file_maps[j] == m1.file_maps[j]);
    assert(m2.media_files[f] == m1.media_files[f]);
}

/// Record a movie entry: find or create the movie item, record the file,
/// and link them.
#[verifier::rlimit(60)]
pub fn create_movie_item(
    store: &mut Store,
    library_id: &str,
    info: &MovieInfo,
    path: &str,
    size_bytes: i64,
    mtime_ts: i64,
    now_ts: i64,
) -> (r: Result<(), StoreError>)
    requires
        old(store).inv(),
        !contains_file_path(old(store).model().media_files, path@),
    ensures
        final(store).inv(),
        scan_leaves_rest(old(store).model(), final(store).model()),
        tables_grow_only(old(store).model(), final(store).model()),
        match r {
            Ok(_) => {
                &&& exists|fm: MediaFileModel|
                    final(store).model().media_files == old(store).model().media_files.push(fm)
                        && (#[trigger] fm.path) == path@
                &&& final(store).model().file_maps.len() == old(store).model().file_maps.len() + 1
                &&& contains_file_path(final(store).model().media_files, path@)
                &&& movie_recorded(final(store).model(), library_id@, info.title@, path@)
            },
            Err(e) => {
                &&& e == StoreError::Full
                &&& final(store).model().next_id == u64::MAX
                &&& (final(store).model().media_files == old(store).model().media_files || exists|
                    fm: MediaFileModel,
                |
                    final(store).model().media_files == old(store).model().media_files.push(fm)
                        && (#[trigger] fm.path) == path@)
            },
        },
{
    let ghost m0 = store.model();
    let year_i64: Option<i64> = match info.year {
        Some(y) => Some(y as i64),
        None => None,
    };
    let item_id = match store.find_or_create_item(
        library_id,
        ItemKind::Movie,
        None,
        info.title.as_str(),
        year_i64,
        now_ts,
    ) {
        Ok(id) => id,
        Err(e) => {
            proof {
                crate::store::lemma_find_key_props(
                    m0.items,
                    0,
                    library_id@,
                    ItemKind::Movie,
                    None,
                    info.title@,
                );
            }
            return Err(e);
        },
    };
    let ghost m1 = store.model();
    proof {
        crate::store::lemma_find_key_props(m0.items, 0, library_id@, ItemKind::Movie, None, info.title@);
        match crate::store::find_item_by_key(m0.items, library_id@, ItemKind::Movie, None, info.title@) {
            Some(k) => {
                assert(m1.items[k] == m0.items[k]);
                assert(item_key_matches(m1.items[k], library_id@, ItemKind::Movie, None, info.title@));
                assert(m1.items[k].id == item_id@);
            },
            None => {
                let k = m1.items.len() - 1;
                assert(item_key_matches(m1.items[k], library_id@, ItemKind::Movie, None, info.title@));
                assert(m1.items[k].id == item_id@);
            },
        }
        assert(exists|k: int|
            0 <= k < m1.items.len() && item_key_matches(
                #[trigger] m1.items[k],
                library_id@,
                ItemKind::Movie,
                None,
                info.title@,
            ) && m1.items[k].id == item_id@);
        assert(m1.media_files == m0.media_files);
    }
    let file_id = match store.create_media_file(path, size_bytes, mtime_ts, now_ts) {
        Ok(id) => id,
        Err(e) => {
            proof {
                assert(e != StoreError::Conflict);
                assert(e != StoreError::NotFound);
            }
            return Err(e);
        },
    };
    let ghost m2 = store.model();
    match store.create_file_map(item_id.as_str(), file_id.as_str(), "primary", now_ts) {
        Ok(_) => {
            proof {
                let m3 = store.model();
                assert(m3.media_files == m2.media_files);
                let k = choose|k: int|
                    0 <= k < m1.items.len() && item_key_matches(
                        #[trigger] m1.items[k],
                        library_id@,
                        ItemKind::Movie,
                        None,
                        info.title@,
                    ) && m1.items[k].id == item_id@;
                assert(m3.items == m1.items);
                assert(m3.file_maps.last().item_id == m3.items[k].id);
                assert(m3.file_maps.last().file_id == file_id@);
                assert(m3.file_maps.last().map_kind == "primary"@);
                assert(m3.media_files.last().id == file_id@);
                assert(m3.media_files.last().path == path@);
                let j = m3.file_maps.len() - 1;
                let f = m3.media_files.len() - 1;
                assert(0 <= k < m3.items.len() && 0 <= j < m3.file_maps.len() && 0 <= f
                    < m3.media_files.len() && item_key_matches(
                    #[trigger] m3.items[k],
                    library_id@,
                    ItemKind::Movie,
                    None,
                    info.title@,
                ) && (#[trigger] m3.file_maps[j]).item_id == m3.items[k].id
                    && m3.file_maps[j].file_id == (#[trigger] m3.media_files[f]).id
                    && m3.file_maps[j].map_kind == "primary"@ && m3.media_files[f].path == path@);
                assert(movie_recorded(m3, library_id@, info.title@, path@));
                assert(m3.media_files =~= m0.media_files.push(m3.media_files.last()));
                assert(exists|fm: MediaFileModel|
                    m3.media_files == m0.media_files.push(fm) && (#[trigger] fm.path) == path@);
                assert(m3.media_files[m3.media_files.len() - 1].path == path@);
                assert(contains_file_path(m3.media_files, path@));
            }
            Ok(())
        },
        Err(e) => {
            proof {
                let mfin = store.model();
                assert(mfin.media_files == m2.media_files);
                assert(m2.media_files =~= m0.media_files.push(m2.media_files.last()));
                assert(m2.media_files.last().path == path@);
                assert(exists|fm: MediaFileModel|
                    mfin.media_files == m0.media_files.push(fm) && (#[trigger] fm.path) == path@);
            }
            return Err(e);
        },
    }
}

/// The indices of a recorded episode chain: series, season and episode
/// items keyed as the scanner writes them, and a primary link from the
/// episode to a media-file row with the entry's path.
pub open spec fn episode_chain_recorded(
    m1: crate::store::StoreModel,
    library_id: Seq<char>,
    info: crate::parser::EpisodeParse,
    path: Seq<char>,
    k1: int,
    k2: int,
    k3: int,
    j: int,
    f: int,
) -> bool {
    &&& 0 <= k1 < m1.items.len()
    &&& 0 <= k2 < m1.items.len()
    &&& 0 <= k3 < m1.items.len()
    &&& 0 <= j < m1.file_maps.len()
    &&& 0 <= f < m1.media_files.len()
    &&& item_key_matches(m1.items[k1], library_id, ItemKind::Series, None, info.series_title)
    &&& item_key_matches(
        m1.items[k2],
        library_id,
        ItemKind::Season,
        Some(m1.items[k1].id),
        season_title_spec(info.season as u32),
    )
    &&& item_key_matches(
        m1.items[k3],
        library_id,
        ItemKind::Episode,
        Some(m1.items[k2].id),
        episode_title_spec(info),
    )
    &&& m1.file_maps[j].item_id == m1.items[k3].id
    &&& m1.file_maps[j].file_id == m1.media_files[f].id
    &&& m1.file_maps[j].map_kind == "primary"@
    &&& m1.media_files[f].path == path
}

/// An episode entry is recorded, with the indices hidden.
pub open spec fn episode_recorded(
    m: crate::store::StoreModel,
    library_id: Seq<char>,
    info: crate::parser::EpisodeParse,
    path: Seq<char>,
) -> bool {
    exists|k1: int, k2: int, k3: int, j: int, f: int|
        episode_chain_recorded(m, library_id, info, path, k1, k2, k3, j, f)
}

/// Recorded chains survive an inserts-only step.
pub proof fn lemma_episode_recorded_grows(
    m1: crate::store::StoreModel,
    m2: crate::store::StoreModel,
    library_id: Seq<char>,
    info: crate::parser::EpisodeParse,
    path: Seq<char>,
)
    requires
        tables_grow_only(m1, m2),
        episode_recorded(m1, library_id, info, path),
    ensures
        episode_recorded(m2, library_id, info, path),
{
    let (k1, k2, k3, j, f) = choose|k1: int, k2: int, k3: int, j: int, f: int|
        episode_chain_recorded(m1, library_id, info, path, k1, k2, k3, j, f);
    assert(m2.items[k1] == m1.items[k1]);
    assert(m2.items[k2] == m1.items[k2]);
    assert(m2.items[k3] == m1.items[k3]);
    assert(m2.file_maps[j] == m1.file_maps[j]);
    assert(m2.media_files[f] == m1.media_files[f]);
    assert(episode_chain_recorded(m2, library_id, info, path, k1, k2, k3, j, f));
}

/// No walk entry path is recorded yet, and no two entries share a path:
/// what a first scan over a fresh tree sees.
pub open spec fn fresh_and_distinct(
    files: Seq<crate::store::MediaFileModel>,
    entries: Seq<MediaEntry>,
) -> bool {
    &&& forall|k: int|
        0 <= k < entries.len() ==> !contains_file_path(files, (#[trigger] entries[k]).path@)
    &&& forall|a: int, b: int|
        0 <= a < b < entries.len() ==> (#[trigger] entries[a]).path@ != (
        #[trigger] entries[b]).path@
}

/// What a recorded entry left in the store, by library kind: the item rows
/// its parse names, linked to a file row with its path.
pub open spec fn entry_recorded(
    m: crate::store::StoreModel,
    library_id: Seq<char>,
    kind: LibraryKind,
    root: Seq<char>,
    path: Seq<char>,
) -> bool {
    let parsed = match kind {
        LibraryKind::Movies => movie_entry_spec(rel_of(path, root)),
        LibraryKind::TvShows => tv_entry_spec(rel_of(path, root)),
    };
    match parsed {
        MediaParse::Movie(mv) => movie_recorded(m, library_id, mv.title, path),
        MediaParse::Episode(e) => episode_recorded(m, library_id, e, path),
        MediaParse::Unknown(_) => true,
    }
}

/// A filename parse is always a movie or an episode, for a bare stem as
/// well as for both entry forms.
pub proof fn lemma_parse_never_unknown(rel: Seq<char>)
    ensures
        !(movie_entry_spec(rel) is Unknown),
        !(tv_entry_spec(rel) is Unknown),
        !(parse_filename_spec(rel) is Unknown),
{
}

/// Record an episode entry: find or create the series, season and episode
/// items, record the file, and link it to the episode.
#[verifier::rlimit(100)]
pub fn create_episode_item(
    store: &mut Store,
    library_id: &str,
    info: &EpisodeInfo,
    path: &str,
    size_bytes: i64,
    mtime_ts: i64,
    now_ts: i64,
) -> (r: Result<(), StoreError>)
    requires
        old(store).inv(),
        !contains_file_path(old(store).model().media_files, path@),
    ensures
        final(store).inv(),
        scan_leaves_rest(old(store).model(), final(store).model()),
        tables_grow_only(old(store).model(), final(store).model()),
        match r {
            Ok(_) => {
                &&& exists|fm: MediaFileModel|
                    final(store).model().media_files == old(store).model().media_files.push(fm)
                        && (#[trigger] fm.path) == path@
                &&& final(store).model().file_maps.len() == old(store).model().file_maps.len() + 1
                &&& contains_file_path(final(store).model().media_files, path@)
                &&& episode_recorded(final(store).model(), library_id@, info@, path@)
            },
            Err(e) => {
                &&& e == StoreError::Full
                &&& final(store).model().next_id == u64::MAX
                &&& (final(store).model().media_files == old(store).model().media_files || exists|
                    fm: MediaFileModel,
                |
                    final(store).model().media_files == old(store).model().media_files.push(fm)
                        && (#[trigger] fm.path) == path@)
            },
        },
{
    let ghost m0 = store.model();
    // series
    let series_id = match store.find_or_create_item(
        library_id,
        ItemKind::Series,
        None,
        info.series_title.as_str(),
        None,
        now_ts,
    ) {
        Ok(id) => id,
        Err(e) => {
            proof {
                crate::store::lemma_find_key_props(
                    m0.items,
                    0,
                    library_id@,
                    ItemKind::Series,
                    None,
                    info.series_title@,
                );
            }
            return Err(e);
        },
    };
    let ghost ma = store.model();
    proof {
        crate::store::lemma_find_key_props(m0.items, 0, library_id@, ItemKind::Series, None, info.series_title@);
        match crate::store::find_item_by_key(m0.items, library_id@, ItemKind::Series, None, info.series_title@) {
            Some(k) => {
                assert(ma.items[k] == m0.items[k]);
                assert(item_key_matches(ma.items[k], library_id@, ItemKind::Series, None, info.series_title@));
                assert(ma.items[k].id == series_id@);
            },
            None => {
                let k = ma.items.len() - 1;
                assert(item_key_matches(ma.items[k], library_id@, ItemKind::Series, None, info.series_title@));
                assert(ma.items[k].id == series_id@);
            },
        }
        assert(exists|k: int|
            0 <= k < ma.items.len() && item_key_matches(
                #[trigger] ma.items[k],
                library_id@,
                ItemKind::Series,
                None,
                info.series_title@,
            ) && ma.items[k].id == series_id@);
        assert(ma.media_files == m0.media_files);
    }
    // season
    let stitle = season_title(info.season);
    proof {
        let k = choose|k: int|
            0 <= k < ma.items.len() && item_key_matches(
                #[trigger] ma.items[k],
                library_id@,
                ItemKind::Series,
                None,
                info.series_title@,
            ) && ma.items[k].id == series_id@;
        assert(0 <= k < ma.items.len() && (#[trigger] ma.items[k]).id == series_id@
            && ma.items[k].kind == ItemKind::Series && ma.items[k].library_id == library_id@);
        assert(crate::store::parent_ok(ma.items, library_id@, ItemKind::Season, Some(series_id@)));
    }
    let season_id = match store.find_or_create_item(
        library_id,
        ItemKind::Season,
        Some(series_id.as_str()),
        stitle.as_str(),
        None,
        now_ts,
    ) {
        Ok(id) => id,
        Err(e) => {
            proof {
                crate::store::lemma_find_key_props(
                    ma.items,
                    0,
                    library_id@,
                    ItemKind::Season,
                    Some(series_id@),
                    stitle@,
                );
            }
            return Err(e);
        },
    };
    let ghost mb = store.model();
    proof {
        crate::store::lemma_find_key_props(ma.items, 0, library_id@, ItemKind::Season, Some(series_id@), stitle@);
        match crate::store::find_item_by_key(ma.items, library_id@, ItemKind::Season, Some(series_id@), stitle@) {
            Some(k) => {
                assert(mb.items[k] == ma.items[k]);
                assert(item_key_matches(mb.items[k], library_id@, ItemKind::Season, Some(series_id@), stitle@));
                assert(mb.items[k].id == season_id@);
            },
            None => {
                let k = mb.items.len() - 1;
                assert(item_key_matches(mb.items[k], library_id@, ItemKind::Season, Some(series_id@), stitle@));
                assert(mb.items[k].id == season_id@);
            },
        }
        assert(exists|k: int|
            0 <= k < mb.items.len() && item_key_matches(
                #[trigger] mb.items[k],
                library_id@,
                ItemKind::Season,
                Some(series_id@),
                stitle@,
            ) && mb.items[k].id == season_id@);
        assert(mb.media_files == m0.media_files);
    }
    // episode
    let etitle: String = match &info.episode_title {
        Some(t) => t.clone(),
        None => {
            let mut s = String::from_str("Episode ");
            let num = crate::strutil::u64_to_dec_string(info.episode as u64);
            s.append(num.as_str());
            s
        },
    };
    proof {
        assert(etitle@ == episode_title_spec(info@));
        let k = choose|k: int|
            0 <= k < mb.items.len() && item_key_matches(
                #[trigger] mb.items[k],
                library_id@,
                ItemKind::Season,
                Some(series_id@),
                stitle@,
            ) && mb.items[k].id == season_id@;
        assert(0 <= k < mb.items.len() && (#[trigger] mb.items[k]).id == season_id@
            && mb.items[k].kind == ItemKind::Season && mb.items[k].library_id == library_id@);
        assert(crate::store::parent_ok(mb.items, library_id@, ItemKind::Episode, Some(season_id@)));
    }
    let episode_id = match store.find_or_create_item(
        library_id,
        ItemKind::Episode,
        Some(season_id.as_str()),
        etitle.as_str(),
        None,
        now_ts,
    ) {
        Ok(id) => id,
        Err(e) => {
            proof {
                crate::store::lemma_find_key_props(
                    mb.items,
                    0,
                    library_id@,
                    ItemKind::Episode,
                    Some(season_id@),
                    etitle@,
                );
            }
            return Err(e);
        },
    };
    let ghost mc = store.model();
    proof {
        crate::store::lemma_find_key_props(mb.items, 0, library_id@, ItemKind::Episode, Some(season_id@), etitle@);
        match crate::store::find_item_by_key(mb.items, library_id@, ItemKind::Episode, Some(season_id@), etitle@) {
            Some(k) => {
                assert(mc.items[k] == mb.items[k]);
                assert(item_key_matches(mc.items[k], library_id@, ItemKind::Episode, Some(season_id@), etitle@));
                assert(mc.items[k].id == episode_id@);
            },
            None => {
                let k = mc.items.len() - 1;
                assert(item_key_matches(mc.items[k], library_id@, ItemKind::Episode, Some(season_id@), etitle@));
                assert(mc.items[k].id == episode_id@);
            },
        }
        assert(exists|k: int|
            0 <= k < mc.items.len() && item_key_matches(
                #[trigger] mc.items[k],
                library_id@,
                ItemKind::Episode,
                Some(season_id@),
                etitle@,
            ) && mc.items[k].id == episode_id@);
        assert(mc.media_files == m0.media_files);
    }
    // file and link
    let file_id = match store.create_media_file(path, size_bytes, mtime_ts, now_ts) {
        Ok(id) => id,
        Err(e) => {
            proof {
                assert(e != StoreError::Conflict);
                assert(e != StoreError::NotFound);
            }
            return Err(e);
        },
    };
    let ghost md = store.model();
    match store.create_file_map(episode_id.as_str(), file_id.as_str(), "primary", now_ts) {
        Ok(_) => {
            proof {
                let m1 = store.model();
                // locate the three items again in the final table
                let k1 = choose|k: int|
                    0 <= k < ma.items.len() && item_key_matches(
                        #[trigger] ma.items[k],
                        library_id@,
                        ItemKind::Series,
                        None,
                        info.series_title@,
                    ) && ma.items[k].id == series_id@;
                let k2 = choose|k: int|
                    0 <= k < mb.items.len() && item_key_matches(
                        #[trigger] mb.items[k],
                        library_id@,
                        ItemKind::Season,
                        Some(series_id@),
                        stitle@,
                    ) && mb.items[k].id == season_id@;
                let k3 = choose|k: int|
                    0 <= k < mc.items.len() && item_key_matches(
                        #[trigger] mc.items[k],
                        library_id@,
                        ItemKind::Episode,
                        Some(season_id@),
                        etitle@,
                    ) && mc.items[k].id == episode_id@;
                // items only grow between the snapshots
                assert(mb.items == ma.items || mb.items.len() == ma.items.len() + 1);
                assert(m1.items == mc.items);
                assert(m1.items[k1] == ma.items[k1]);
                assert(m1.items[k2] == mb.items[k2]);
                assert(m1.items[k3] == mc.items[k3]);
                assert(m1.items[k2].parent_id == Some(m1.items[k1].id));
                assert(m1.items[k3].parent_id == Some(m1.items[k2].id));
                let j = m1.file_maps.len() - 1;
                let f = m1.media_files.len() - 1;
                assert((#[trigger] m1.file_maps[j]).item_id == m1.items[k3].id);
                assert(m1.file_maps[j].file_id == m1.media_files[f].id);
                assert(m1.file_maps[j].map_kind == "primary"@);
                assert(item_key_matches(
                    m1.items[k2],
                    library_id@,
                    ItemKind::Season,
                    Some(m1.items[k1].id),
                    season_title_spec(info.season),
                ));
                assert(item_key_matches(
                    m1.items[k3],
                    library_id@,
                    ItemKind::Episode,
                    Some(m1.items[k2].id),
                    episode_title_spec(info@),
                ));
                assert(md.media_files == mc.media_files.push(md.media_files.last())
                    && md.media_files.last().path == path@) by {
                    assert(md.media_files =~= mc.media_files.push(md.media_files.last()));
                }
                assert(m1.media_files == md.media_files);
                assert(mc.media_files == m0.media_files);
                assert(exists|fm: MediaFileModel|
                    m1.media_files == m0.media_files.push(fm) && (#[trigger] fm.path) == path@);
                assert(m1.media_files[m1.media_files.len() - 1].path == path@);
                assert(contains_file_path(m1.media_files, path@));
                assert(episode_chain_recorded(m1, library_id@, info@, path@, k1, k2, k3, j, f));
                assert(episode_recorded(m1, library_id@, info@, path@));
            }
            Ok(())
        },
        Err(e) => {
            proof {
                let mfin = store.model();
                assert(mfin.media_files == md.media_files);
                assert(md.media_files =~= m0.media_files.push(md.media_files.last()));
                assert(md.media_files.last().path == path@);
                assert(exists|fm: MediaFileModel|
                    mfin.media_files == m0.media_files.push(fm) && (#[trigger] fm.path) == path@);
            }
            return Err(e);
        },
    }
}

/// Run a full scan over the walk results of one library root.
///
/// Inserts only: no existing item, media-file or file-map row is removed or
/// changed. A rescan over entries whose paths are all recorded already
/// succeeds, changes nothing, and reports them all skipped. A scan over
/// fresh, pairwise-distinct paths records every entry — the items its parse
/// names, the file row, and the primary link — and reports them all added.
/// The only failure is an exhausted id counter, and everything recorded
/// before the failure remains.
pub fn run_library_scan(
    store: &mut Store,
    library_id: &str,
    kind: LibraryKind,
    root: &str,
    entries: &Vec<MediaEntry>,
    now_ts: i64,
) -> (r: Result<ScanResult, StoreError>)
    requires
        old(store).inv(),
    ensures
        final(store).inv(),
        scan_leaves_rest(old(store).model(), final(store).model()),
        tables_grow_only(old(store).model(), final(store).model()),
        (forall|k: int|
            0 <= k < entries@.len() ==> contains_file_path(
                old(store).model().media_files,
                (#[trigger] entries@[k]).path@,
            )) ==> (match r {
            Ok(res) => final(store).model() == old(store).model() && res.added == 0 && res.skipped
                == entries@.len(),
            Err(_) => false,
        }),
        match r {
            Ok(res) => {
                &&& res.added + res.skipped == entries@.len()
                // each added entry records exactly one file and one link;
                // a skipped entry records nothing
                &&& final(store).model().media_files.len() == old(store).model().media_files.len()
                    + res.added
                &&& final(store).model().file_maps.len() == old(store).model().file_maps.len()
                    + res.added
                &&& forall|k: int|
                    0 <= k < entries@.len() ==> contains_file_path(
                        final(store).model().media_files,
                        (#[trigger] entries@[k]).path@,
                    )
                &&& fresh_and_distinct(old(store).model().media_files, entries@) ==> (res.added
                    == entries@.len() && res.skipped == 0 && forall|k: int|
                    0 <= k < entries@.len() ==> entry_recorded(
                        final(store).model(),
                        library_id@,
                        kind,
                        root@,
                        (#[trigger] entries@[k]).path@,
                    ))
            },
            Err(e) => e == StoreError::Full && final(store).model().next_id == u64::MAX,
        },
{
    let ghost m0 = store.model();
    let n: usize = entries.len();
    let mut added: usize = 0;
    let mut skipped: usize = 0;
    let mut idx: usize = 0;
    while idx < n
        invariant
            store.inv(),
            0 <= idx <= n,
            n == entries@.len(),
            added + skipped == idx,
            m0 == old(store).model(),
            scan_leaves_rest(m0, store.model()),
            tables_grow_only(m0, store.model()),
            store.model().media_files.len() == m0.media_files.len() + added,
            store.model().file_maps.len() == m0.file_maps.len() + added,
            forall|k: int|
                0 <= k < idx ==> contains_file_path(
                    store.model().media_files,
                    (#[trigger] entries@[k]).path@,
                ),
            // every file row added so far carries a processed entry's path
            forall|fi: int|
                m0.media_files.len() <= fi < store.model().media_files.len() ==> exists|k: int|
                    0 <= k < idx && (#[trigger] store.model().media_files[fi]).path
                        == entries@[k].path@,
            (forall|k: int|
                0 <= k < n ==> contains_file_path(
                    m0.media_files,
                    (#[trigger] entries@[k]).path@,
                )) ==> (store.model() == m0 && added == 0 && skipped == idx),
            fresh_and_distinct(m0.media_files, entries@) ==> (skipped == 0 && added == idx
                && forall|k: int|
                0 <= k < idx ==> entry_recorded(
                    store.model(),
                    library_id@,
                    kind,
                    root@,
                    (#[trigger] entries@[k]).path@,
                )),
        decreases n - idx,
    {
        let ghost mpre = store.model();
        let e = &entries[idx];
        if store.file_exists(e.path.as_str()) {
            proof {
                // under fresh, distinct paths this branch cannot be taken:
                // the found row is either an old one (path not fresh) or a
                // row added for an earlier entry (paths not distinct)
                if fresh_and_distinct(m0.media_files, entries@) {
                    let w = choose|w: int|
                        0 <= w < mpre.media_files.len() && (
                        #[trigger] mpre.media_files[w]).path == entries@[idx as int].path@;
                    if w < m0.media_files.len() {
                        assert(mpre.media_files[w] == m0.media_files[w]);
                        assert(contains_file_path(m0.media_files, entries@[idx as int].path@));
                    } else {
                        let k = choose|k: int|
                            0 <= k < idx && (#[trigger] mpre.media_files[w]).path
                                == entries@[k].path@;
                        assert(entries@[k].path@ == entries@[idx as int].path@);
                    }
                    assert(false);
                }
            }
            skipped += 1;
        } else {
            proof {
                // a path outside the table refutes the all-known antecedent
                if forall|k: int|
                    0 <= k < n ==> contains_file_path(
                        m0.media_files,
                        (#[trigger] entries@[k]).path@,
                    ) {
                    assert(contains_file_path(m0.media_files, entries@[idx as int].path@));
                    assert(store.model() == m0);
                    assert(false);
                }
            }
            let rel = exec_rel_of(e.path.as_str(), root);
            let rel_str = string_from_chars(&rel);
            let parsed = match kind {
                LibraryKind::Movies => parse_movie_entry(rel_str.as_str()),
                LibraryKind::TvShows => parse_tv_entry(rel_str.as_str()),
            };
            match parsed {
                ParsedMedia::Movie(info) => {
                    match create_movie_item(
                        store,
                        library_id,
                        &info,
                        e.path.as_str(),
                        e.size_bytes,
                        e.mtime_ts,
                        now_ts,
                    ) {
                        Ok(_) => {},
                        Err(err) => {
                            proof {
                                lemma_grow_only_trans(m0, mpre, store.model());
                            }
                            return Err(err);
                        },
                    }
                    added += 1;
                },
                ParsedMedia::Episode(info) => {
                    match create_episode_item(
                        store,
                        library_id,
                        &info,
                        e.path.as_str(),
                        e.size_bytes,
                        e.mtime_ts,
                        now_ts,
                    ) {
                        Ok(_) => {},
                        Err(err) => {
                            proof {
                                lemma_grow_only_trans(m0, mpre, store.model());
                            }
                            return Err(err);
                        },
                    }
                    added += 1;
                },
                ParsedMedia::Unknown(_) => {
                    proof {
                        lemma_parse_never_unknown(rel_of(entries@[idx as int].path@, root@));
                        assert(false);
                    }
                    skipped += 1;
                },
            }
            proof {
                let mcur = store.model();
                lemma_grow_only_trans(m0, mpre, mcur);
                // every already-seen path survives the pushes of this step
                assert forall|k: int|
                    0 <= k < idx + 1 implies contains_file_path(
                    mcur.media_files,
                    (#[trigger] entries@[k]).path@,
                ) by {
                    if k < idx {
                        assert(contains_file_path(mpre.media_files, entries@[k].path@));
                        let w = choose|w: int|
                            0 <= w < mpre.media_files.len() && (
                            #[trigger] mpre.media_files[w]).path == entries@[k].path@;
                        assert(mcur.media_files[w] == mpre.media_files[w]);
                    } else {
                        assert(contains_file_path(mcur.media_files, entries@[idx as int].path@));
                    }
                }
                // the one new file row carries this entry's path
                assert forall|fi: int|
                    m0.media_files.len() <= fi < mcur.media_files.len() implies exists|k: int|
                    0 <= k < idx + 1 && (#[trigger] mcur.media_files[fi]).path
                        == entries@[k].path@ by {
                    if fi < mpre.media_files.len() {
                        assert(mcur.media_files[fi] == mpre.media_files[fi]);
                        let k = choose|k: int|
                            0 <= k < idx && (#[trigger] mpre.media_files[fi]).path
                                == entries@[k].path@;
                        assert(0 <= k < idx + 1 && mcur.media_files[fi].path == entries@[k].path@);
                    } else {
                        let fm = choose|fm: MediaFileModel|
                            mcur.media_files == mpre.media_files.push(fm) && (#[trigger] fm.path)
                                == entries@[idx as int].path@;
                        assert(mcur.media_files[fi].path == entries@[idx as int].path@);
                    }
                }
                // under a fresh scan, this entry is now recorded and the
                // earlier recordings survive the growth
                if fresh_and_distinct(m0.media_files, entries@) {
                    assert forall|k: int|
                        0 <= k < idx + 1 implies entry_recorded(
                        mcur,
                        library_id@,
                        kind,
                        root@,
                        (#[trigger] entries@[k]).path@,
                    ) by {
                        if k < idx {
                            let gpath = entries@[k].path@;
                            assert(entry_recorded(mpre, library_id@, kind, root@, gpath));
                            let parsedk = match kind {
                                LibraryKind::Movies => movie_entry_spec(rel_of(gpath, root@)),
                                LibraryKind::TvShows => tv_entry_spec(rel_of(gpath, root@)),
                            };
                            match parsedk {
                                MediaParse::Movie(mv) => {
                                    lemma_movie_recorded_grows(
                                        mpre,
                                        mcur,
                                        library_id@,
                                        mv.title,
                                        gpath,
                                    );
                                },
                                MediaParse::Episode(ep) => {
                                    lemma_episode_recorded_grows(
                                        mpre,
                                        mcur,
                                        library_id@,
                                        ep,
                                        gpath,
                                    );
                                },
                                MediaParse::Unknown(_) => {},
                            }
                        } else {
                            assert(entry_recorded(
                                mcur,
                                library_id@,
                                kind,
                                root@,
                                entries@[idx as int].path@,
                            ));
                        }
                    }
                }
            }
        }
        idx += 1;
    }
    proof {
        if forall|k: int|
            0 <= k < n ==> contains_file_path(m0.media_files, (#[trigger] entries@[k]).path@) {
            assert(store.model() == m0);
        }
    }
    Ok(ScanResult { added, skipped })
}

} // verus!

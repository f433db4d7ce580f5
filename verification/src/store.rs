//! The entity store: libraries, items, media files and their links, provider
//! IDs, field locks, per-user play state, users, settings, and jobs, held as
//! in-memory tables with the relational guarantees stated as one invariant.
//!
//! Row ids are minted from a single counter and rendered in decimal, which
//! makes freshness provable; timestamps come in from the caller. Durable
//! storage of these tables is I/O done outside the library.
//!
//! The invariant carries, among others: ids are unique per table; an item's
//! `(library, kind, parent, title)` key picks out at most one row, which is
//! what makes `find_or_create_item` idempotent; a season's parent is a
//! series and an episode's parent is a season, each in the same library; a
//! media-file path occurs at most once; `(item, provider)`, `(item, field)`
//! and `(user, item)` each pick out at most one provider-ID, field-lock or
//! play-state row.

use crate::strutil::{dec_str, u64_to_dec_string};
use crate::types::{ItemKind, JobStatus, LibraryKind, UserRole};
use vstd::prelude::*;
use vstd::string::StringExecFns;

verus! {

// ─── rows ────────────────────────────────────────────────────────────────

/// A node of the content hierarchy.
#[derive(Debug, Clone)]
pub struct ItemRow {
    pub id: String,
    pub library_id: String,
    pub kind: ItemKind,
    pub parent_id: Option<String>,
    pub title: String,
    pub sort_title: Option<String>,
    pub year: Option<i64>,
    pub overview: Option<String>,
    pub poster_url: Option<String>,
    pub backdrop_url: Option<String>,
    pub logo_url: Option<String>,
    pub thumb_url: Option<String>,
    pub created_ts: i64,
    pub updated_ts: i64,
}

/// One on-disk playable file.
#[derive(Debug, Clone)]
pub struct MediaFileRow {
    pub id: String,
    pub path: String,
    pub size_bytes: i64,
    pub mtime_ts: i64,
    pub container: Option<String>,
    pub duration_ms: Option<i64>,
    pub created_ts: i64,
    pub updated_ts: i64,
}

/// The link between an item and the media file that realises it.
#[derive(Debug, Clone)]
pub struct FileMapRow {
    pub id: String,
    pub item_id: String,
    pub file_id: String,
    pub map_kind: String,
    pub created_ts: i64,
}

#[derive(Debug, Clone)]
pub struct ProviderIdRow {
    pub item_id: String,
    pub provider: String,
    pub value: String,
}

#[derive(Debug, Clone)]
pub struct FieldLockRow {
    pub item_id: String,
    pub field: String,
    pub locked_ts: i64,
}

#[derive(Debug, Clone)]
pub struct PlayStateRow {
    pub user_id: String,
    pub item_id: String,
    pub played: bool,
    pub progress_ms: i64,
    pub last_played_ts: Option<i64>,
    pub favorite: bool,
}

#[derive(Debug, Clone)]
pub struct LibraryRow {
    pub id: String,
    pub name: String,
    pub kind: LibraryKind,
    pub created_ts: i64,
    pub updated_ts: i64,
}

#[derive(Debug, Clone)]
pub struct LibraryPathRow {
    pub id: String,
    pub library_id: String,
    pub path: String,
    pub is_read_only: bool,
}

#[derive(Debug, Clone)]
pub struct LibrarySettingsRow {
    pub library_id: String,
    pub show_images: bool,
    pub prefer_local_artwork: bool,
    pub fetch_online_artwork: bool,
}

#[derive(Debug, Clone)]
pub struct UserRow {
    pub id: String,
    pub username: String,
    pub password_hash: String,
    pub role: UserRole,
    pub created_ts: i64,
}

/// A background job record. Progress is carried in thousandths.
#[derive(Debug, Clone)]
pub struct JobRow {
    pub id: String,
    pub kind: String,
    pub status: JobStatus,
    pub progress_milli: u32,
    pub payload_json: Option<String>,
    pub error: Option<String>,
    pub created_ts: i64,
    pub updated_ts: i64,
}

// ─── mathematical models ─────────────────────────────────────────────────

pub open spec fn opt_view(o: Option<String>) -> Option<Seq<char>> {
    match o {
        Some(s) => Some(s@),
        None => None,
    }
}

pub struct ItemModel {
    pub id: Seq<char>,
    pub library_id: Seq<char>,
    pub kind: ItemKind,
    pub parent_id: Option<Seq<char>>,
    pub title: Seq<char>,
    pub sort_title: Option<Seq<char>>,
    pub year: Option<i64>,
    pub overview: Option<Seq<char>>,
    pub poster_url: Option<Seq<char>>,
    pub backdrop_url: Option<Seq<char>>,
    pub logo_url: Option<Seq<char>>,
    pub thumb_url: Option<Seq<char>>,
    pub created_ts: i64,
    pub updated_ts: i64,
}

impl View for ItemRow {
    type V = ItemModel;

    open spec fn view(&self) -> ItemModel {
        ItemModel {
            id: self.id@,
            library_id: self.library_id@,
            kind: self.kind,
            parent_id: opt_view(self.parent_id),
            title: self.title@,
            sort_title: opt_view(self.sort_title),
            year: self.year,
            overview: opt_view(self.overview),
            poster_url: opt_view(self.poster_url),
            backdrop_url: opt_view(self.backdrop_url),
            logo_url: opt_view(self.logo_url),
            thumb_url: opt_view(self.thumb_url),
            created_ts: self.created_ts,
            updated_ts: self.updated_ts,
        }
    }
}

pub struct MediaFileModel {
    pub id: Seq<char>,
    pub path: Seq<char>,
    pub size_bytes: i64,
    pub mtime_ts: i64,
    pub container: Option<Seq<char>>,
    pub duration_ms: Option<i64>,
    pub created_ts: i64,
    pub updated_ts: i64,
}

impl View for MediaFileRow {
    type V = MediaFileModel;

    open spec fn view(&self) -> MediaFileModel {
        MediaFileModel {
            id: self.id@,
            path: self.path@,
            size_bytes: self.size_bytes,
            mtime_ts: self.mtime_ts,
            container: opt_view(self.container),
            duration_ms: self.duration_ms,
            created_ts: self.created_ts,
            updated_ts: self.updated_ts,
        }
    }
}

pub struct FileMapModel {
    pub id: Seq<char>,
    pub item_id: Seq<char>,
    pub file_id: Seq<char>,
    pub map_kind: Seq<char>,
    pub created_ts: i64,
}

impl View for FileMapRow {
    type V = FileMapModel;

    open spec fn view(&self) -> FileMapModel {
        FileMapModel {
            id: self.id@,
            item_id: self.item_id@,
            file_id: self.file_id@,
            map_kind: self.map_kind@,
            created_ts: self.created_ts,
        }
    }
}

pub struct ProviderIdModel {
    pub item_id: Seq<char>,
    pub provider: Seq<char>,
    pub value: Seq<char>,
}

impl View for ProviderIdRow {
    type V = ProviderIdModel;

    open spec fn view(&self) -> ProviderIdModel {
        ProviderIdModel { item_id: self.item_id@, provider: self.provider@, value: self.value@ }
    }
}

pub struct FieldLockModel {
    pub item_id: Seq<char>,
    pub field: Seq<char>,
    pub locked_ts: i64,
}

impl View for FieldLockRow {
    type V = FieldLockModel;

    open spec fn view(&self) -> FieldLockModel {
        FieldLockModel { item_id: self.item_id@, field: self.field@, locked_ts: self.locked_ts }
    }
}

pub struct PlayStateModel {
    pub user_id: Seq<char>,
    pub item_id: Seq<char>,
    pub played: bool,
    pub progress_ms: i64,
    pub last_played_ts: Option<i64>,
    pub favorite: bool,
}

impl View for PlayStateRow {
    type V = PlayStateModel;

    open spec fn view(&self) -> PlayStateModel {
        PlayStateModel {
            user_id: self.user_id@,
            item_id: self.item_id@,
            played: self.played,
            progress_ms: self.progress_ms,
            last_played_ts: self.last_played_ts,
            favorite: self.favorite,
        }
    }
}

pub struct LibraryModel {
    pub id: Seq<char>,
    pub name: Seq<char>,
    pub kind: LibraryKind,
    pub created_ts: i64,
    pub updated_ts: i64,
}

impl View for LibraryRow {
    type V = LibraryModel;

    open spec fn view(&self) -> LibraryModel {
        LibraryModel {
            id: self.id@,
            name: self.name@,
            kind: self.kind,
            created_ts: self.created_ts,
            updated_ts: self.updated_ts,
        }
    }
}

pub struct LibraryPathModel {
    pub id: Seq<char>,
    pub library_id: Seq<char>,
    pub path: Seq<char>,
    pub is_read_only: bool,
}

impl View for LibraryPathRow {
    type V = LibraryPathModel;

    open spec fn view(&self) -> LibraryPathModel {
        LibraryPathModel {
            id: self.id@,
            library_id: self.library_id@,
            path: self.path@,
            is_read_only: self.is_read_only,
        }
    }
}

pub struct LibrarySettingsModel {
    pub library_id: Seq<char>,
    pub show_images: bool,
    pub prefer_local_artwork: bool,
    pub fetch_online_artwork: bool,
}

impl View for LibrarySettingsRow {
    type V = LibrarySettingsModel;

    open spec fn view(&self) -> LibrarySettingsModel {
        LibrarySettingsModel {
            library_id: self.library_id@,
            show_images: self.show_images,
            prefer_local_artwork: self.prefer_local_artwork,
            fetch_online_artwork: self.fetch_online_artwork,
        }
    }
}

pub struct UserModel {
    pub id: Seq<char>,
    pub username: Seq<char>,
    pub password_hash: Seq<char>,
    pub role: UserRole,
    pub created_ts: i64,
}

impl View for UserRow {
    type V = UserModel;

    open spec fn view(&self) -> UserModel {
        UserModel {
            id: self.id@,
            username: self.username@,
            password_hash: self.password_hash@,
            role: self.role,
            created_ts: self.created_ts,
        }
    }
}

pub struct JobModel {
    pub id: Seq<char>,
    pub kind: Seq<char>,
    pub status: JobStatus,
    pub progress_milli: u32,
    pub payload_json: Option<Seq<char>>,
    pub error: Option<Seq<char>>,
    pub created_ts: i64,
    pub updated_ts: i64,
}

impl View for JobRow {
    type V = JobModel;

    open spec fn view(&self) -> JobModel {
        JobModel {
            id: self.id@,
            kind: self.kind@,
            status: self.status,
            progress_milli: self.progress_milli,
            payload_json: opt_view(self.payload_json),
            error: opt_view(self.error),
            created_ts: self.created_ts,
            updated_ts: self.updated_ts,
        }
    }
}

/// The whole store, mathematically.
pub struct StoreModel {
    pub next_id: nat,
    pub libraries: Seq<LibraryModel>,
    pub library_paths: Seq<LibraryPathModel>,
    pub library_settings: Seq<LibrarySettingsModel>,
    pub items: Seq<ItemModel>,
    pub media_files: Seq<MediaFileModel>,
    pub file_maps: Seq<FileMapModel>,
    pub provider_ids: Seq<ProviderIdModel>,
    pub field_locks: Seq<FieldLockModel>,
    pub play_states: Seq<PlayStateModel>,
    pub users: Seq<UserModel>,
    pub user_access: Seq<(Seq<char>, Seq<char>)>,
    pub settings: Seq<(Seq<char>, Seq<char>)>,
    pub jobs: Seq<JobModel>,
}

// ─── the store ───────────────────────────────────────────────────────────

/// Why a store operation failed.
#[derive(Debug, Clone, Copy, PartialEq, Eq, Structural)]
pub enum StoreError {
    /// The referenced row does not exist.
    NotFound,
    /// A uniqueness or referential rule refuses the write.
    Conflict,
    /// The id counter is exhausted (a machine limit).
    Full,
    /// An outside computation failed.
    Internal,
}

pub struct Store {
    next_id: u64,
    libraries: Vec<LibraryRow>,
    library_paths: Vec<LibraryPathRow>,
    library_settings: Vec<LibrarySettingsRow>,
    items: Vec<ItemRow>,
    media_files: Vec<MediaFileRow>,
    file_maps: Vec<FileMapRow>,
    provider_ids: Vec<ProviderIdRow>,
    field_locks: Vec<FieldLockRow>,
    play_states: Vec<PlayStateRow>,
    users: Vec<UserRow>,
    user_access: Vec<(String, String)>,
    settings: Vec<(String, String)>,
    jobs: Vec<JobRow>,
}

pub open spec fn views<R: View>(rows: Seq<R>) -> Seq<R::V> {
    rows.map_values(|r: R| r@)
}

/// An id was minted before the counter reached `bound`.
pub open spec fn id_ok(id: Seq<char>, bound: nat) -> bool {
    exists|m: nat| m < bound && id == dec_str(m)
}

/// Ids minted below the bound differ from the id the bound mints next.
pub proof fn lemma_id_fresh(id: Seq<char>, bound: nat)
    requires
        id_ok(id, bound),
    ensures
        id != dec_str(bound),
{
    let m = choose|m: nat| m < bound && id == dec_str(m);
    if id == dec_str(bound) {
        crate::strutil::lemma_dec_str_injective(m, bound);
    }
}

pub open spec fn item_key_matches(
    it: ItemModel,
    library_id: Seq<char>,
    kind: ItemKind,
    parent_id: Option<Seq<char>>,
    title: Seq<char>,
) -> bool {
    it.library_id == library_id && it.kind == kind && it.parent_id == parent_id && it.title
        == title
}

/// The first item at or after `i` matching the scanner's idempotence key.
pub open spec fn find_item_by_key_from(
    items: Seq<ItemModel>,
    i: int,
    library_id: Seq<char>,
    kind: ItemKind,
    parent_id: Option<Seq<char>>,
    title: Seq<char>,
) -> Option<int>
    decreases items.len() - i,
{
    if i < 0 || i >= items.len() {
        None
    } else if item_key_matches(items[i], library_id, kind, parent_id, title) {
        Some(i)
    } else {
        find_item_by_key_from(items, i + 1, library_id, kind, parent_id, title)
    }
}

/// The first item matching the scanner's idempotence key.
pub open spec fn find_item_by_key(
    items: Seq<ItemModel>,
    library_id: Seq<char>,
    kind: ItemKind,
    parent_id: Option<Seq<char>>,
    title: Seq<char>,
) -> Option<int> {
    find_item_by_key_from(items, 0, library_id, kind, parent_id, title)
}

/// What `find_item_by_key_from` yields is the first match.
pub proof fn lemma_find_key_props(
    items: Seq<ItemModel>,
    i: int,
    library_id: Seq<char>,
    kind: ItemKind,
    parent_id: Option<Seq<char>>,
    title: Seq<char>,
)
    requires
        0 <= i,
    ensures
        match find_item_by_key_from(items, i, library_id, kind, parent_id, title) {
            Some(k) => i <= k < items.len() && item_key_matches(
                items[k],
                library_id,
                kind,
                parent_id,
                title,
            ) && forall|j: int|
                i <= j < k ==> !item_key_matches(
                    #[trigger] items[j],
                    library_id,
                    kind,
                    parent_id,
                    title,
                ),
            None => forall|j: int|
                i <= j < items.len() ==> !item_key_matches(
                    #[trigger] items[j],
                    library_id,
                    kind,
                    parent_id,
                    title,
                ),
        },
    decreases items.len() - i,
{
    if i < items.len() && !item_key_matches(items[i], library_id, kind, parent_id, title) {
        lemma_find_key_props(items, i + 1, library_id, kind, parent_id, title);
    }
}

/// The first item at or after `i` with the given id.
pub open spec fn find_item_by_id_from(items: Seq<ItemModel>, i: int, id: Seq<char>) -> Option<int>
    decreases items.len() - i,
{
    if i < 0 || i >= items.len() {
        None
    } else if items[i].id == id {
        Some(i)
    } else {
        find_item_by_id_from(items, i + 1, id)
    }
}

/// The first item with the given id.
pub open spec fn find_item_by_id(items: Seq<ItemModel>, id: Seq<char>) -> Option<int> {
    find_item_by_id_from(items, 0, id)
}

/// What `find_item_by_id_from` yields is the first match.
pub proof fn lemma_find_id_props(items: Seq<ItemModel>, i: int, id: Seq<char>)
    requires
        0 <= i,
    ensures
        match find_item_by_id_from(items, i, id) {
            Some(k) => i <= k < items.len() && items[k].id == id,
            None => forall|j: int| i <= j < items.len() ==> (#[trigger] items[j]).id != id,
        },
    decreases items.len() - i,
{
    if i < items.len() && items[i].id != id {
        lemma_find_id_props(items, i + 1, id);
    }
}

pub open spec fn item_ids_unique(items: Seq<ItemModel>) -> bool {
    forall|i: int, j: int|
        0 <= i < j < items.len() ==> (#[trigger] items[i]).id != (#[trigger] items[j]).id
}

/// The scanner's idempotence key is unique across items.
pub open spec fn item_keys_unique(items: Seq<ItemModel>) -> bool {
    forall|i: int, j: int|
        0 <= i < j < items.len() ==> !(item_key_matches(
            #[trigger] items[i],
            items[j].library_id,
            items[j].kind,
            items[j].parent_id,
            #[trigger] items[j].title,
        ))
}

/// What a legal parent looks like for each item kind.
pub open spec fn parent_ok(
    items: Seq<ItemModel>,
    library_id: Seq<char>,
    kind: ItemKind,
    parent_id: Option<Seq<char>>,
) -> bool {
    match kind {
        ItemKind::Movie | ItemKind::Series => parent_id is None,
        ItemKind::Season => match parent_id {
            Some(p) => exists|i: int|
                0 <= i < items.len() && (#[trigger] items[i]).id == p && items[i].kind
                    == ItemKind::Series && items[i].library_id == library_id,
            None => false,
        },
        ItemKind::Episode => match parent_id {
            Some(p) => exists|i: int|
                0 <= i < items.len() && (#[trigger] items[i]).id == p && items[i].kind
                    == ItemKind::Season && items[i].library_id == library_id,
            None => false,
        },
    }
}

/// The hierarchy rule: every item's parent is legal for its kind.
pub open spec fn hierarchy_ok(items: Seq<ItemModel>) -> bool {
    forall|i: int|
        0 <= i < items.len() ==> parent_ok(
            items,
            (#[trigger] items[i]).library_id,
            items[i].kind,
            items[i].parent_id,
        )
}

/// The relational invariant, over the mathematical store.
pub open spec fn model_inv(m: StoreModel) -> bool {
    &&& item_ids_unique(m.items)
    &&& item_keys_unique(m.items)
    &&& hierarchy_ok(m.items)
    &&& forall|i: int| 0 <= i < m.items.len() ==> id_ok((#[trigger] m.items[i]).id, m.next_id)
    &&& forall|i: int, j: int|
        0 <= i < j < m.media_files.len() ==> (#[trigger] m.media_files[i]).id != (
        #[trigger] m.media_files[j]).id
    &&& forall|i: int, j: int|
        0 <= i < j < m.media_files.len() ==> (#[trigger] m.media_files[i]).path != (
        #[trigger] m.media_files[j]).path
    &&& forall|i: int|
        0 <= i < m.media_files.len() ==> id_ok((#[trigger] m.media_files[i]).id, m.next_id)
    &&& forall|i: int|
        0 <= i < m.file_maps.len() ==> id_ok((#[trigger] m.file_maps[i]).id, m.next_id)
    &&& forall|i: int, j: int|
        0 <= i < j < m.provider_ids.len() ==> !((#[trigger] m.provider_ids[i]).item_id == (
        #[trigger] m.provider_ids[j]).item_id && m.provider_ids[i].provider
            == m.provider_ids[j].provider)
    &&& forall|i: int, j: int|
        0 <= i < j < m.field_locks.len() ==> !((#[trigger] m.field_locks[i]).item_id == (
        #[trigger] m.field_locks[j]).item_id && m.field_locks[i].field == m.field_locks[j].field)
    &&& forall|i: int, j: int|
        0 <= i < j < m.play_states.len() ==> !((#[trigger] m.play_states[i]).user_id == (
        #[trigger] m.play_states[j]).user_id && m.play_states[i].item_id
            == m.play_states[j].item_id)
    &&& forall|i: int, j: int|
        0 <= i < j < m.libraries.len() ==> (#[trigger] m.libraries[i]).id != (
        #[trigger] m.libraries[j]).id
    &&& forall|i: int| 0 <= i < m.libraries.len() ==> id_ok((#[trigger] m.libraries[i]).id, m.next_id)
    &&& forall|i: int|
        0 <= i < m.library_paths.len() ==> id_ok((#[trigger] m.library_paths[i]).id, m.next_id)
    &&& forall|i: int, j: int|
        0 <= i < j < m.users.len() ==> (#[trigger] m.users[i]).id != (#[trigger] m.users[j]).id
            && m.users[i].username != m.users[j].username
    &&& forall|i: int| 0 <= i < m.users.len() ==> id_ok((#[trigger] m.users[i]).id, m.next_id)
    &&& forall|i: int, j: int|
        0 <= i < j < m.settings.len() ==> (#[trigger] m.settings[i]).0 != (
        #[trigger] m.settings[j]).0
    &&& forall|i: int, j: int|
        0 <= i < j < m.jobs.len() ==> (#[trigger] m.jobs[i]).id != (#[trigger] m.jobs[j]).id
    &&& forall|i: int| 0 <= i < m.jobs.len() ==> id_ok((#[trigger] m.jobs[i]).id, m.next_id)
    &&& forall|i: int| 0 <= i < m.jobs.len() ==> (#[trigger] m.jobs[i]).progress_milli <= 1000
}

/// A minted id stays in range as the counter grows.
pub proof fn lemma_id_ok_monotone(id: Seq<char>, b0: nat, b1: nat)
    requires
        id_ok(id, b0),
        b0 <= b1,
    ensures
        id_ok(id, b1),
{
    let w = choose|w: nat| w < b0 && id == dec_str(w);
    assert(w < b1 && id == dec_str(w));
}

/// Bumping the counter alone preserves the invariant.
pub proof fn lemma_inv_bump(m0: StoreModel, m1: StoreModel)
    requires
        model_inv(m0),
        m1 == (StoreModel { next_id: m1.next_id, ..m0 }),
        m1.next_id >= m0.next_id,
    ensures
        model_inv(m1),
{
    assert forall|i: int| 0 <= i < m1.items.len() implies id_ok(
        (#[trigger] m1.items[i]).id,
        m1.next_id,
    ) by {
        lemma_id_ok_monotone(m0.items[i].id, m0.next_id, m1.next_id);
    }
    assert forall|i: int| 0 <= i < m1.media_files.len() implies id_ok(
        (#[trigger] m1.media_files[i]).id,
        m1.next_id,
    ) by {
        lemma_id_ok_monotone(m0.media_files[i].id, m0.next_id, m1.next_id);
    }
    assert forall|i: int| 0 <= i < m1.file_maps.len() implies id_ok(
        (#[trigger] m1.file_maps[i]).id,
        m1.next_id,
    ) by {
        lemma_id_ok_monotone(m0.file_maps[i].id, m0.next_id, m1.next_id);
    }
    assert forall|i: int| 0 <= i < m1.libraries.len() implies id_ok(
        (#[trigger] m1.libraries[i]).id,
        m1.next_id,
    ) by {
        lemma_id_ok_monotone(m0.libraries[i].id, m0.next_id, m1.next_id);
    }
    assert forall|i: int| 0 <= i < m1.library_paths.len() implies id_ok(
        (#[trigger] m1.library_paths[i]).id,
        m1.next_id,
    ) by {
        lemma_id_ok_monotone(m0.library_paths[i].id, m0.next_id, m1.next_id);
    }
    assert forall|i: int| 0 <= i < m1.users.len() implies id_ok(
        (#[trigger] m1.users[i]).id,
        m1.next_id,
    ) by {
        lemma_id_ok_monotone(m0.users[i].id, m0.next_id, m1.next_id);
    }
    assert forall|i: int| 0 <= i < m1.jobs.len() implies id_ok(
        (#[trigger] m1.jobs[i]).id,
        m1.next_id,
    ) by {
        lemma_id_ok_monotone(m0.jobs[i].id, m0.next_id, m1.next_id);
    }
}

impl Store {
    /// The store, mathematically.
    pub closed spec fn model(self) -> StoreModel {
        StoreModel {
            next_id: self.next_id as nat,
            libraries: views(self.libraries@),
            library_paths: views(self.library_paths@),
            library_settings: views(self.library_settings@),
            items: views(self.items@),
            media_files: views(self.media_files@),
            file_maps: views(self.file_maps@),
            provider_ids: views(self.provider_ids@),
            field_locks: views(self.field_locks@),
            play_states: views(self.play_states@),
            users: views(self.users@),
            user_access: self.user_access@.map_values(|p: (String, String)| (p.0@, p.1@)),
            settings: self.settings@.map_values(|p: (String, String)| (p.0@, p.1@)),
            jobs: views(self.jobs@),
        }
    }

    /// The relational invariant.
    pub open spec fn inv(self) -> bool {
        model_inv(self.model())
    }

    /// An empty store.
    pub fn new() -> (r: Store)
        ensures
            r.inv(),
            r.model().items.len() == 0,
            r.model().media_files.len() == 0,
            r.model().file_maps.len() == 0,
            r.model().provider_ids.len() == 0,
            r.model().field_locks.len() == 0,
            r.model().play_states.len() == 0,
            r.model().libraries.len() == 0,
            r.model().library_paths.len() == 0,
            r.model().library_settings.len() == 0,
            r.model().users.len() == 0,
            r.model().user_access.len() == 0,
            r.model().settings.len() == 0,
            r.model().jobs.len() == 0,
    {
        let s = Store {
            next_id: 0,
            libraries: Vec::new(),
            library_paths: Vec::new(),
            library_settings: Vec::new(),
            items: Vec::new(),
            media_files: Vec::new(),
            file_maps: Vec::new(),
            provider_ids: Vec::new(),
            field_locks: Vec::new(),
            play_states: Vec::new(),
            users: Vec::new(),
            user_access: Vec::new(),
            settings: Vec::new(),
            jobs: Vec::new(),
        };
        proof {
            assert(s.model().items =~= Seq::<ItemModel>::empty());
            assert(s.model().media_files =~= Seq::<MediaFileModel>::empty());
            assert(s.model().file_maps =~= Seq::<FileMapModel>::empty());
            assert(s.model().provider_ids =~= Seq::<ProviderIdModel>::empty());
            assert(s.model().field_locks =~= Seq::<FieldLockModel>::empty());
            assert(s.model().play_states =~= Seq::<PlayStateModel>::empty());
            assert(s.model().libraries =~= Seq::<LibraryModel>::empty());
            assert(s.model().library_paths =~= Seq::<LibraryPathModel>::empty());
            assert(s.model().library_settings =~= Seq::<LibrarySettingsModel>::empty());
            assert(s.model().users =~= Seq::<UserModel>::empty());
            assert(s.model().user_access =~= Seq::<(Seq<char>, Seq<char>)>::empty());
            assert(s.model().settings =~= Seq::<(Seq<char>, Seq<char>)>::empty());
            assert(s.model().jobs =~= Seq::<JobModel>::empty());
        }
        s
    }

    /// Mint a fresh row id from the counter.
    fn mint_id(&mut self) -> (r: Result<String, StoreError>)
        ensures
            match r {
                Ok(id) => old(self).next_id < u64::MAX && final(self).next_id == old(self).next_id
                    + 1 && id@ == dec_str(old(self).next_id as nat),
                Err(e) => e == StoreError::Full && old(self).next_id == u64::MAX && *final(self)
                    == *old(self),
            },
            final(self).libraries == old(self).libraries,
            final(self).library_paths == old(self).library_paths,
            final(self).library_settings == old(self).library_settings,
            final(self).items == old(self).items,
            final(self).media_files == old(self).media_files,
            final(self).file_maps == old(self).file_maps,
            final(self).provider_ids == old(self).provider_ids,
            final(self).field_locks == old(self).field_locks,
            final(self).play_states == old(self).play_states,
            final(self).users == old(self).users,
            final(self).user_access == old(self).user_access,
            final(self).settings == old(self).settings,
            final(self).jobs == old(self).jobs,
    {
        if self.next_id == u64::MAX {
            return Err(StoreError::Full);
        }
        let id = u64_to_dec_string(self.next_id);
        self.next_id = self.next_id + 1;
        Ok(id)
    }

    // ─── items ───────────────────────────────────────────────────────────

    /// Find the position of the item carrying the scanner key.
    fn position_item_by_key(
        &self,
        library_id: &str,
        kind: ItemKind,
        parent_id: Option<&str>,
        title: &str,
    ) -> (r: Option<usize>)
        ensures
            ({
                let pv = match parent_id {
                    Some(p) => Some(p@),
                    None => None,
                };
                match r {
                    Some(i) => find_item_by_key(self.model().items, library_id@, kind, pv, title@)
                        == Some(i as int) && i < self.model().items.len(),
                    None => find_item_by_key(
                        self.model().items,
                        library_id@,
                        kind,
                        pv,
                        title@,
                    ) is None,
                }
            }),
    {
        let ghost pv: Option<Seq<char>> = match parent_id {
            Some(p) => Some(p@),
            None => None,
        };
        let n: usize = self.items.len();
        let mut i: usize = 0;
        while i < n
            invariant
                0 <= i <= n,
                n == self.model().items.len(),
                pv == (match parent_id {
                    Some(p) => Some(p@),
                    None => None,
                }),
                find_item_by_key(self.model().items, library_id@, kind, pv, title@)
                    == find_item_by_key_from(
                    self.model().items,
                    i as int,
                    library_id@,
                    kind,
                    pv,
                    title@,
                ),
            decreases n - i,
        {
            let it = &self.items[i];
            let parent_same: bool = match (&it.parent_id, parent_id) {
                (Some(a), Some(b)) => crate::strutil::str_eq(a.as_str(), b),
                (None, None) => true,
                _ => false,
            };
            let hit = parent_same && it.kind == kind && crate::strutil::str_eq(
                it.library_id.as_str(),
                library_id,
            ) && crate::strutil::str_eq(it.title.as_str(), title);
            proof {
                assert(self.model().items[i as int] == self.items@[i as int]@);
            }
            if hit {
                return Some(i);
            }
            i += 1;
        }
        None
    }

    /// Find the position of the item with the given id.
    fn position_item_by_id(&self, id: &str) -> (r: Option<usize>)
        ensures
            match r {
                Some(i) => find_item_by_id(self.model().items, id@) == Some(i as int) && i
                    < self.model().items.len(),
                None => find_item_by_id(self.model().items, id@) is None,
            },
    {
        let n: usize = self.items.len();
        let mut i: usize = 0;
        while i < n
            invariant
                0 <= i <= n,
                n == self.model().items.len(),
                find_item_by_id(self.model().items, id@) == find_item_by_id_from(
                    self.model().items,
                    i as int,
                    id@,
                ),
            decreases n - i,
        {
            proof {
                assert(self.model().items[i as int] == self.items@[i as int]@);
            }
            if crate::strutil::str_eq(self.items[i].id.as_str(), id) {
                return Some(i);
            }
            i += 1;
        }
        None
    }

    /// Whether the given parent is legal for the given kind.
    fn check_parent_ok(&self, library_id: &str, kind: ItemKind, parent_id: Option<&str>) -> (r:
        bool)
        requires
            self.inv(),
        ensures
            r == parent_ok(
                self.model().items,
                library_id@,
                kind,
                match parent_id {
                    Some(p) => Some(p@),
                    None => None,
                },
            ),
    {
        match kind {
            ItemKind::Movie | ItemKind::Series => parent_id.is_none(),
            ItemKind::Season => match parent_id {
                Some(p) => {
                    match self.position_item_by_id(p) {
                        Some(i) => {
                            proof {
                                lemma_find_id_props(self.model().items, 0, p@);
                                let m = self.model().items;
                                if !(m[i as int].kind == ItemKind::Series && m[i as int].library_id
                                    == library_id@) {
                                    assert forall|w: int|
                                        0 <= w < m.len() && (#[trigger] m[w]).id == p@ implies !(
                                    m[w].kind == ItemKind::Series && m[w].library_id
                                        == library_id@) by {
                                        assert(m[w].id == m[i as int].id);
                                        if w != i {
                                            assert(false);
                                        }
                                    }
                                }
                            }
                            let it = &self.items[i];
                            it.kind == ItemKind::Series && crate::strutil::str_eq(
                                it.library_id.as_str(),
                                library_id,
                            )
                        },
                        None => {
                            proof {
                                lemma_find_id_props(self.model().items, 0, p@);
                            }
                            false
                        },
                    }
                },
                None => false,
            },
            ItemKind::Episode => match parent_id {
                Some(p) => {
                    match self.position_item_by_id(p) {
                        Some(i) => {
                            proof {
                                lemma_find_id_props(self.model().items, 0, p@);
                                let m = self.model().items;
                                if !(m[i as int].kind == ItemKind::Season && m[i as int].library_id
                                    == library_id@) {
                                    assert forall|w: int|
                                        0 <= w < m.len() && (#[trigger] m[w]).id == p@ implies !(
                                    m[w].kind == ItemKind::Season && m[w].library_id
                                        == library_id@) by {
                                        assert(m[w].id == m[i as int].id);
                                        if w != i {
                                            assert(false);
                                        }
                                    }
                                }
                            }
                            let it = &self.items[i];
                            it.kind == ItemKind::Season && crate::strutil::str_eq(
                                it.library_id.as_str(),
                                library_id,
                            )
                        },
                        None => {
                            proof {
                                lemma_find_id_props(self.model().items, 0, p@);
                            }
                            false
                        },
                    }
                },
                None => false,
            },
        }
    }

    /// Select by the scanner key; when present return that row's id
    /// unchanged, otherwise insert a fresh row. The parent must be legal for
    /// the kind; otherwise the write is refused with `Conflict`.
    pub fn find_or_create_item(
        &mut self,
        library_id: &str,
        kind: ItemKind,
        parent_id: Option<&str>,
        title: &str,
        year: Option<i64>,
        now_ts: i64,
    ) -> (r: Result<String, StoreError>)
        requires
            old(self).inv(),
        ensures
            final(self).inv(),
            ({
                let pv = match parent_id {
                    Some(p) => Some(p@),
                    None => None,
                };
                let m0 = old(self).model();
                let found = find_item_by_key(m0.items, library_id@, kind, pv, title@);
                match r {
                    Ok(id) => match found {
                        Some(k) => id@ == m0.items[k].id && final(self).model() == m0,
                        None => {
                            &&& parent_ok(m0.items, library_id@, kind, pv)
                            &&& m0.next_id < u64::MAX
                            &&& id@ == dec_str(m0.next_id)
                            &&& final(self).model() == (StoreModel {
                                next_id: m0.next_id + 1,
                                items: m0.items.push(
                                    ItemModel {
                                        id: dec_str(m0.next_id),
                                        library_id: library_id@,
                                        kind,
                                        parent_id: pv,
                                        title: title@,
                                        sort_title: None,
                                        year,
                                        overview: None,
                                        poster_url: None,
                                        backdrop_url: None,
                                        logo_url: None,
                                        thumb_url: None,
                                        created_ts: now_ts,
                                        updated_ts: now_ts,
                                    },
                                ),
                                ..m0
                            })
                        },
                    },
                    Err(StoreError::Conflict) => found is None && !parent_ok(
                        m0.items,
                        library_id@,
                        kind,
                        pv,
                    ) && final(self).model() == m0,
                    Err(StoreError::Full) => found is None && parent_ok(
                        m0.items,
                        library_id@,
                        kind,
                        pv,
                    ) && m0.next_id == u64::MAX && final(self).model() == m0,
                    Err(StoreError::NotFound) | Err(StoreError::Internal) => false,
                }
            }),
    {
        let ghost pv: Option<Seq<char>> = match parent_id {
            Some(p) => Some(p@),
            None => None,
        };
        let ghost m0 = self.model();
        match self.position_item_by_key(library_id, kind, parent_id, title) {
            Some(i) => Ok(self.items[i].id.clone()),
            None => {
                if !self.check_parent_ok(library_id, kind, parent_id) {
                    return Err(StoreError::Conflict);
                }
                let id = match self.mint_id() {
                    Ok(id) => id,
                    Err(e) => {
                        return Err(e);
                    },
                };
                let row = ItemRow {
                    id: id.clone(),
                    library_id: String::from_str(library_id),
                    kind,
                    parent_id: match parent_id {
                        Some(p) => Some(String::from_str(p)),
                        None => None,
                    },
                    title: String::from_str(title),
                    sort_title: None,
                    year,
                    overview: None,
                    poster_url: None,
                    backdrop_url: None,
                    logo_url: None,
                    thumb_url: None,
                    created_ts: now_ts,
                    updated_ts: now_ts,
                };
                let ghost grow = row@;
                self.items.push(row);
                proof {
                    let m1 = self.model();
                    assert(m1.items =~= m0.items.push(grow));
                    assert(m1 == StoreModel { next_id: m0.next_id + 1, items: m1.items, ..m0 });
                    lemma_find_key_props(m0.items, 0, library_id@, kind, pv, title@);
                    // id uniqueness: every old id was minted below the bound
                    assert forall|a: int, b: int|
                        0 <= a < b < m1.items.len() implies (#[trigger] m1.items[a]).id != (
                    #[trigger] m1.items[b]).id by {
                        if b == m1.items.len() - 1 {
                            lemma_id_fresh(m0.items[a].id, m0.next_id);
                        }
                    }
                    // key uniqueness: the scan found no row with this key
                    assert forall|a: int, b: int|
                        0 <= a < b < m1.items.len() implies !(item_key_matches(
                        #[trigger] m1.items[a],
                        m1.items[b].library_id,
                        m1.items[b].kind,
                        m1.items[b].parent_id,
                        #[trigger] m1.items[b].title,
                    )) by {
                        if b == m1.items.len() - 1 {
                            assert(m1.items[a] == m0.items[a]);
                        }
                    }
                    // hierarchy: old rows keep their witnesses, the new row
                    // was checked against the old table
                    assert forall|a: int|
                        0 <= a < m1.items.len() implies parent_ok(
                        m1.items,
                        (#[trigger] m1.items[a]).library_id,
                        m1.items[a].kind,
                        m1.items[a].parent_id,
                    ) by {
                        let it = m1.items[a];
                        if a < m1.items.len() - 1 {
                            assert(parent_ok(m0.items, it.library_id, it.kind, it.parent_id));
                        } else {
                            assert(parent_ok(m0.items, library_id@, kind, pv));
                        }
                        match it.kind {
                            ItemKind::Season | ItemKind::Episode => {
                                let p = it.parent_id->Some_0;
                                let w = choose|w: int|
                                    0 <= w < m0.items.len() && (#[trigger] m0.items[w]).id == p
                                        && (m0.items[w].kind == ItemKind::Series || m0.items[w].kind
                                        == ItemKind::Season) && m0.items[w].library_id
                                        == it.library_id;
                                assert(m1.items[w] == m0.items[w]);
                            },
                            _ => {},
                        }
                    }
                    // minted bounds grow with the counter
                    assert forall|a: int|
                        0 <= a < m1.items.len() implies id_ok(
                        (#[trigger] m1.items[a]).id,
                        m1.next_id,
                    ) by {
                        if a < m1.items.len() - 1 {
                            let w = choose|w: nat| w < m0.next_id && m0.items[a].id == dec_str(w);
                            assert(w < m1.next_id);
                        } else {
                            assert(m1.items[a].id == dec_str(m0.next_id));
                        }
                    }
                }
                Ok(id)
            },
        }
    }

    /// Fetch an item by id.
    pub fn get_item(&self, item_id: &str) -> (r: Option<ItemRow>)
        ensures
            match r {
                Some(row) => exists|i: int|
                    0 <= i < self.model().items.len() && (#[trigger] self.model().items[i]) == row@
                        && row@.id == item_id@,
                None => find_item_by_id(self.model().items, item_id@) is None,
            },
    {
        match self.position_item_by_id(item_id) {
            Some(i) => {
                proof {
                    lemma_find_id_props(self.model().items, 0, item_id@);
                    assert(self.model().items[i as int] == self.items@[i as int]@);
                }
                Some(self.items[i].duplicate())
            },
            None => None,
        }
    }
}

// ─── finders for files, maps, providers, locks, play state ──────────────

pub open spec fn find_file_by_path_from(files: Seq<MediaFileModel>, i: int, path: Seq<char>) -> Option<int>
    decreases files.len() - i,
{
    if i < 0 || i >= files.len() {
        None
    } else if files[i].path == path {
        Some(i)
    } else {
        find_file_by_path_from(files, i + 1, path)
    }
}

pub open spec fn contains_file_path(files: Seq<MediaFileModel>, path: Seq<char>) -> bool {
    exists|i: int| 0 <= i < files.len() && (#[trigger] files[i]).path == path
}

pub proof fn lemma_find_path_props(files: Seq<MediaFileModel>, i: int, path: Seq<char>)
    requires
        0 <= i,
    ensures
        match find_file_by_path_from(files, i, path) {
            Some(k) => i <= k < files.len() && files[k].path == path,
            None => forall|j: int| i <= j < files.len() ==> (#[trigger] files[j]).path != path,
        },
    decreases files.len() - i,
{
    if i < files.len() && files[i].path != path {
        lemma_find_path_props(files, i + 1, path);
    }
}

pub open spec fn find_file_by_id_from(files: Seq<MediaFileModel>, i: int, id: Seq<char>) -> Option<int>
    decreases files.len() - i,
{
    if i < 0 || i >= files.len() {
        None
    } else if files[i].id == id {
        Some(i)
    } else {
        find_file_by_id_from(files, i + 1, id)
    }
}

pub open spec fn find_file_by_id(files: Seq<MediaFileModel>, id: Seq<char>) -> Option<int> {
    find_file_by_id_from(files, 0, id)
}

pub proof fn lemma_find_file_id_props(files: Seq<MediaFileModel>, i: int, id: Seq<char>)
    requires
        0 <= i,
    ensures
        match find_file_by_id_from(files, i, id) {
            Some(k) => i <= k < files.len() && files[k].id == id,
            None => forall|j: int| i <= j < files.len() ==> (#[trigger] files[j]).id != id,
        },
    decreases files.len() - i,
{
    if i < files.len() && files[i].id != id {
        lemma_find_file_id_props(files, i + 1, id);
    }
}

/// The first file map naming the item.
pub open spec fn find_map_by_item_from(maps: Seq<FileMapModel>, i: int, item_id: Seq<char>) -> Option<int>
    decreases maps.len() - i,
{
    if i < 0 || i >= maps.len() {
        None
    } else if maps[i].item_id == item_id {
        Some(i)
    } else {
        find_map_by_item_from(maps, i + 1, item_id)
    }
}

/// The first file map naming the file.
pub open spec fn find_map_by_file_from(maps: Seq<FileMapModel>, i: int, file_id: Seq<char>) -> Option<int>
    decreases maps.len() - i,
{
    if i < 0 || i >= maps.len() {
        None
    } else if maps[i].file_id == file_id {
        Some(i)
    } else {
        find_map_by_file_from(maps, i + 1, file_id)
    }
}

/// The provider-ID row for `(item, provider)`, unique under the invariant.
pub open spec fn find_provider_from(rows: Seq<ProviderIdModel>, i: int, item_id: Seq<char>, provider: Seq<char>) -> Option<int>
    decreases rows.len() - i,
{
    if i < 0 || i >= rows.len() {
        None
    } else if rows[i].item_id == item_id && rows[i].provider == provider {
        Some(i)
    } else {
        find_provider_from(rows, i + 1, item_id, provider)
    }
}

pub proof fn lemma_find_provider_props(rows: Seq<ProviderIdModel>, i: int, item_id: Seq<char>, provider: Seq<char>)
    requires
        0 <= i,
    ensures
        match find_provider_from(rows, i, item_id, provider) {
            Some(k) => i <= k < rows.len() && rows[k].item_id == item_id && rows[k].provider
                == provider,
            None => forall|j: int|
                i <= j < rows.len() ==> !((#[trigger] rows[j]).item_id == item_id
                    && rows[j].provider == provider),
        },
    decreases rows.len() - i,
{
    if i < rows.len() && !(rows[i].item_id == item_id && rows[i].provider == provider) {
        lemma_find_provider_props(rows, i + 1, item_id, provider);
    }
}

/// The play-state row for `(user, item)`, unique under the invariant.
pub open spec fn find_play_from(rows: Seq<PlayStateModel>, i: int, user_id: Seq<char>, item_id: Seq<char>) -> Option<int>
    decreases rows.len() - i,
{
    if i < 0 || i >= rows.len() {
        None
    } else if rows[i].user_id == user_id && rows[i].item_id == item_id {
        Some(i)
    } else {
        find_play_from(rows, i + 1, user_id, item_id)
    }
}

pub proof fn lemma_find_play_props(rows: Seq<PlayStateModel>, i: int, user_id: Seq<char>, item_id: Seq<char>)
    requires
        0 <= i,
    ensures
        match find_play_from(rows, i, user_id, item_id) {
            Some(k) => i <= k < rows.len() && rows[k].user_id == user_id && rows[k].item_id
                == item_id && (forall|j: int|
                i <= j < k ==> !((#[trigger] rows[j]).user_id == user_id && rows[j].item_id
                    == item_id)),
            None => forall|j: int|
                i <= j < rows.len() ==> !((#[trigger] rows[j]).user_id == user_id
                    && rows[j].item_id == item_id),
        },
    decreases rows.len() - i,
{
    if i < rows.len() && !(rows[i].user_id == user_id && rows[i].item_id == item_id) {
        lemma_find_play_props(rows, i + 1, user_id, item_id);
    }
}

/// The field-lock row for `(item, field)`, unique under the invariant.
pub open spec fn find_lock_from(rows: Seq<FieldLockModel>, i: int, item_id: Seq<char>, field: Seq<char>) -> Option<int>
    decreases rows.len() - i,
{
    if i < 0 || i >= rows.len() {
        None
    } else if rows[i].item_id == item_id && rows[i].field == field {
        Some(i)
    } else {
        find_lock_from(rows, i + 1, item_id, field)
    }
}

pub proof fn lemma_find_lock_props(rows: Seq<FieldLockModel>, i: int, item_id: Seq<char>, field: Seq<char>)
    requires
        0 <= i,
    ensures
        match find_lock_from(rows, i, item_id, field) {
            Some(k) => i <= k < rows.len() && rows[k].item_id == item_id && rows[k].field == field,
            None => forall|j: int|
                i <= j < rows.len() ==> !((#[trigger] rows[j]).item_id == item_id && rows[j].field
                    == field),
        },
    decreases rows.len() - i,
{
    if i < rows.len() && !(rows[i].item_id == item_id && rows[i].field == field) {
        lemma_find_lock_props(rows, i + 1, item_id, field);
    }
}

// ─── upsert transitions, mathematically ──────────────────────────────────

/// Conflict-update semantics for provider IDs: the row for the key gets the
/// new value, or a new row is appended.
pub open spec fn set_provider_spec(rows: Seq<ProviderIdModel>, item_id: Seq<char>, provider: Seq<char>, value: Seq<char>) -> Seq<ProviderIdModel> {
    match find_provider_from(rows, 0, item_id, provider) {
        Some(k) => rows.update(k, ProviderIdModel { item_id, provider, value }),
        None => rows.push(ProviderIdModel { item_id, provider, value }),
    }
}

/// Conflict-update semantics for play state: a set-to operation.
pub open spec fn update_progress_spec(rows: Seq<PlayStateModel>, user_id: Seq<char>, item_id: Seq<char>, progress_ms: i64, played: bool, now_ts: i64) -> Seq<PlayStateModel> {
    match find_play_from(rows, 0, user_id, item_id) {
        Some(k) => rows.update(
            k,
            PlayStateModel {
                user_id,
                item_id,
                played,
                progress_ms,
                last_played_ts: Some(now_ts),
                favorite: rows[k].favorite,
            },
        ),
        None => rows.push(
            PlayStateModel {
                user_id,
                item_id,
                played,
                progress_ms,
                last_played_ts: Some(now_ts),
                favorite: false,
            },
        ),
    }
}

/// Setting a provider ID twice leaves exactly one row for the key, holding
/// the second value.
pub proof fn lemma_set_provider_id_upsert(
    rows: Seq<ProviderIdModel>,
    item_id: Seq<char>,
    provider: Seq<char>,
    v1: Seq<char>,
    v2: Seq<char>,
)
    ensures
        ({
            let r2 = set_provider_spec(
                set_provider_spec(rows, item_id, provider, v1),
                item_id,
                provider,
                v2,
            );
            &&& r2.len() == set_provider_spec(rows, item_id, provider, v1).len()
            &&& exists|k: int|
                0 <= k < r2.len() && (#[trigger] r2[k]) == (ProviderIdModel {
                    item_id,
                    provider,
                    value: v2,
                })
        }),
{
    let r1 = set_provider_spec(rows, item_id, provider, v1);
    lemma_find_provider_props(rows, 0, item_id, provider);
    let k1: int = match find_provider_from(rows, 0, item_id, provider) {
        Some(k) => k,
        None => rows.len() as int,
    };
    assert(r1[k1] == ProviderIdModel { item_id, provider, value: v1 });
    lemma_find_provider_props(r1, 0, item_id, provider);
    match find_provider_from(r1, 0, item_id, provider) {
        Some(k2) => {
            assert(set_provider_spec(r1, item_id, provider, v2) == r1.update(
                k2,
                ProviderIdModel { item_id, provider, value: v2 },
            ));
            assert((#[trigger] set_provider_spec(r1, item_id, provider, v2)[k2])
                == (ProviderIdModel { item_id, provider, value: v2 }));
        },
        None => {
            assert(r1[k1].item_id == item_id && r1[k1].provider == provider);
            assert(false);
        },
    }
}

/// Repeating `update_progress` with the same arguments changes nothing.
pub proof fn lemma_update_progress_set_to(
    rows: Seq<PlayStateModel>,
    user_id: Seq<char>,
    item_id: Seq<char>,
    progress_ms: i64,
    played: bool,
    now_ts: i64,
)
    ensures
        update_progress_spec(
            update_progress_spec(rows, user_id, item_id, progress_ms, played, now_ts),
            user_id,
            item_id,
            progress_ms,
            played,
            now_ts,
        ) == update_progress_spec(rows, user_id, item_id, progress_ms, played, now_ts),
{
    let r1 = update_progress_spec(rows, user_id, item_id, progress_ms, played, now_ts);
    lemma_find_play_props(rows, 0, user_id, item_id);
    let k1: int = match find_play_from(rows, 0, user_id, item_id) {
        Some(k) => k,
        None => rows.len() as int,
    };
    let target = PlayStateModel {
        user_id,
        item_id,
        played,
        progress_ms,
        last_played_ts: Some(now_ts),
        favorite: r1[k1].favorite,
    };
    assert(r1[k1] == target);
    lemma_find_play_props(r1, 0, user_id, item_id);
    match find_play_from(r1, 0, user_id, item_id) {
        Some(k2) => {
            // the first hit in r1 is the row just written
            if k2 < k1 {
                assert(rows[k2] == r1[k2]);
                lemma_find_play_props(rows, 0, user_id, item_id);
                assert(false);
            } else if k2 > k1 {
                assert(false);
            }
            let r2 = r1.update(
                k2,
                PlayStateModel {
                    user_id,
                    item_id,
                    played,
                    progress_ms,
                    last_played_ts: Some(now_ts),
                    favorite: r1[k2].favorite,
                },
            );
            assert(r2 =~= r1);
        },
        None => {
            assert(r1[k1].user_id == user_id && r1[k1].item_id == item_id);
            assert(false);
        },
    }
}

/// A field-wise copy of an item row.
impl ItemRow {
    pub fn duplicate(&self) -> (r: Self)
        ensures
            r@ == self@,
    {
        ItemRow {
            id: self.id.clone(),
            library_id: self.library_id.clone(),
            kind: self.kind,
            parent_id: clone_opt(&self.parent_id),
            title: self.title.clone(),
            sort_title: clone_opt(&self.sort_title),
            year: self.year,
            overview: clone_opt(&self.overview),
            poster_url: clone_opt(&self.poster_url),
            backdrop_url: clone_opt(&self.backdrop_url),
            logo_url: clone_opt(&self.logo_url),
            thumb_url: clone_opt(&self.thumb_url),
            created_ts: self.created_ts,
            updated_ts: self.updated_ts,
        }
    }
}

/// A field-wise copy of an optional string.
pub fn clone_opt(o: &Option<String>) -> (r: Option<String>)
    ensures
        opt_view(r) == opt_view(*o),
{
    match o {
        Some(s) => Some(s.clone()),
        None => None,
    }
}


/// `id` lies at or below `root` in the item tree, by a parent chain of at
/// most `depth` edges.
pub open spec fn descendant_within(
    items: Seq<ItemModel>,
    root: Seq<char>,
    id: Seq<char>,
    depth: nat,
) -> bool
    decreases depth,
{
    if id == root {
        true
    } else if depth == 0 {
        false
    } else {
        exists|k: int|
            {
                &&& 0 <= k < items.len()
                &&& (#[trigger] items[k]).id == id
                &&& items[k].parent_id matches Some(p) && descendant_within(
                    items,
                    root,
                    p,
                    (depth - 1) as nat,
                )
            }
    }
}

/// A deeper bound admits every shallower chain.
pub proof fn lemma_descendant_monotone(
    items: Seq<ItemModel>,
    root: Seq<char>,
    id: Seq<char>,
    d1: nat,
    d2: nat,
)
    requires
        d1 <= d2,
        descendant_within(items, root, id, d1),
    ensures
        descendant_within(items, root, id, d2),
    decreases d1,
{
    if id != root && d1 > 0 {
        let k = choose|k: int|
            {
                &&& 0 <= k < items.len()
                &&& (#[trigger] items[k]).id == id
                &&& items[k].parent_id matches Some(p) && descendant_within(
                    items,
                    root,
                    p,
                    (d1 - 1) as nat,
                )
            };
        let p = items[k].parent_id->Some_0;
        lemma_descendant_monotone(items, root, p, (d1 - 1) as nat, (d2 - 1) as nat);
        assert(descendant_within(items, root, id, d2));
    }
}

/// Under the hierarchy rule, every parent chain has at most two edges, so
/// any descendant is one within two.
pub proof fn lemma_descendant_within_two(
    items: Seq<ItemModel>,
    root: Seq<char>,
    id: Seq<char>,
    depth: nat,
)
    requires
        item_ids_unique(items),
        hierarchy_ok(items),
        descendant_within(items, root, id, depth),
    ensures
        descendant_within(items, root, id, 2),
    decreases depth,
{
    if id != root && depth > 0 {
        let k = choose|k: int|
            {
                &&& 0 <= k < items.len()
                &&& (#[trigger] items[k]).id == id
                &&& items[k].parent_id matches Some(p) && descendant_within(
                    items,
                    root,
                    p,
                    (depth - 1) as nat,
                )
            };
        let p = items[k].parent_id->Some_0;
        lemma_descendant_within_two(items, root, p, (depth - 1) as nat);
        if p == root {
            assert(descendant_within(items, root, id, 2)) by {
                assert(descendant_within(items, root, p, 1nat));
            }
        } else {
            // the parent is itself below the root: it has a parent, so by
            // the hierarchy rule it is a season and this item an episode,
            // and the chain above the season's series ends
            let k2 = choose|k2: int|
                {
                    &&& 0 <= k2 < items.len()
                    &&& (#[trigger] items[k2]).id == p
                    &&& items[k2].parent_id matches Some(q) && descendant_within(
                        items,
                        root,
                        q,
                        1nat,
                    )
                };
            let q = items[k2].parent_id->Some_0;
            if q == root {
                assert(descendant_within(items, root, q, 0nat));
                assert((#[trigger] items[k2]).id == p && (items[k2].parent_id matches Some(qq)
                    && descendant_within(items, root, qq, 0nat)));
                assert(descendant_within(items, root, p, 1nat));
                assert(descendant_within(items, root, id, 2));
            } else {
                // q is below root too, so items[k2]'s parent has a parent:
                // a chain of three edges, which the hierarchy rule refuses
                let k3 = choose|k3: int|
                    {
                        &&& 0 <= k3 < items.len()
                        &&& (#[trigger] items[k3]).id == q
                        &&& items[k3].parent_id matches Some(w) && descendant_within(
                            items,
                            root,
                            w,
                            0nat,
                        )
                    };
                // items[k3] has a parent, so it is a season or an episode;
                // its child items[k2] has it as parent, so items[k3] is a
                // series or a season; a season's child is an episode, and
                // an episode has no children
                assert(parent_ok(
                    items,
                    items[k2].library_id,
                    items[k2].kind,
                    items[k2].parent_id,
                ));
                assert(parent_ok(items, items[k].library_id, items[k].kind, items[k].parent_id));
                match items[k2].kind {
                    ItemKind::Season => {
                        // its parent is a series, which has no parent
                        let w = choose|w: int|
                            0 <= w < items.len() && (#[trigger] items[w]).id == q && items[w].kind
                                == ItemKind::Series && items[w].library_id == items[k2].library_id;
                        assert(parent_ok(
                            items,
                            items[w].library_id,
                            items[w].kind,
                            items[w].parent_id,
                        ));
                        assert(items[w] == items[k3]);
                        assert(false);
                    },
                    ItemKind::Episode => {
                        // an episode cannot be a parent: items[k]'s parent p
                        // would have to be a season or series
                        let w = choose|w: int|
                            0 <= w < items.len() && (#[trigger] items[w]).id == p && (
                            items[w].kind == ItemKind::Series || items[w].kind == ItemKind::Season)
                                && items[w].library_id == items[k].library_id;
                        assert(items[w] == items[k2]);
                        assert(false);
                    },
                    _ => {
                        // a movie or series has no parent
                        assert(items[k2].parent_id is None);
                        assert(false);
                    },
                }
            }
        }
    }
}


/// An item without a parent row heads no chain below another item.
proof fn lemma_no_parent_no_chain(items: Seq<ItemModel>, root: Seq<char>, id: Seq<char>, k: int)
    requires
        item_ids_unique(items),
        0 <= k < items.len(),
        items[k].id == id,
        items[k].parent_id is None,
        id != root,
    ensures
        !descendant_within(items, root, id, 2),
{
    if descendant_within(items, root, id, 2) {
        let w = choose|w: int|
            {
                &&& 0 <= w < items.len()
                &&& (#[trigger] items[w]).id == id
                &&& items[w].parent_id matches Some(p) && descendant_within(items, root, p, 1nat)
            };
        assert(w == k || items[w].id == items[k].id);
        if w != k {
            assert(false);
        }
    }
}

/// A two-edge chain needs the parent itself to stand one edge below the
/// root: if the unique parent row is missing, parentless, or points past
/// the root, there is no such chain.
proof fn lemma_parent_chain_stops(items: Seq<ItemModel>, root: Seq<char>, id: Seq<char>, k: int)
    requires
        item_ids_unique(items),
        0 <= k < items.len(),
        items[k].id == id,
        items[k].parent_id is Some,
        items[k].parent_id->Some_0 != root,
        id != root,
        !descendant_within(items, root, items[k].parent_id->Some_0, 1),
    ensures
        !descendant_within(items, root, id, 2),
{
    if descendant_within(items, root, id, 2) {
        let w = choose|w: int|
            {
                &&& 0 <= w < items.len()
                &&& (#[trigger] items[w]).id == id
                &&& items[w].parent_id matches Some(p) && descendant_within(items, root, p, 1nat)
            };
        if w != k {
            assert(items[w].id == items[k].id);
            assert(false);
        }
    }
}

/// Libraries other than the one named.
pub open spec fn lib_other(l: Seq<char>) -> spec_fn(LibraryModel) -> bool {
    |x: LibraryModel| x.id != l
}

/// Settings rows of other libraries.
pub open spec fn ls_other(l: Seq<char>) -> spec_fn(LibrarySettingsModel) -> bool {
    |x: LibrarySettingsModel| x.library_id != l
}

/// Items of other libraries.
pub open spec fn item_other_library(l: Seq<char>) -> spec_fn(ItemModel) -> bool {
    |it: ItemModel| it.library_id != l
}

/// Whether an id names an item of the given library.
pub open spec fn item_in_library(items: Seq<ItemModel>, id: Seq<char>, l: Seq<char>) -> bool {
    exists|k: int|
        0 <= k < items.len() && (#[trigger] items[k]).id == id && items[k].library_id == l
}

/// File maps whose item is not in the given library.
pub open spec fn map_outside_library(items: Seq<ItemModel>, l: Seq<char>) -> spec_fn(
    FileMapModel,
) -> bool {
    |fm: FileMapModel| !item_in_library(items, fm.item_id, l)
}

/// Provider rows whose item is not in the given library.
pub open spec fn prov_outside_library(items: Seq<ItemModel>, l: Seq<char>) -> spec_fn(
    ProviderIdModel,
) -> bool {
    |p: ProviderIdModel| !item_in_library(items, p.item_id, l)
}

/// Lock rows whose item is not in the given library.
pub open spec fn lock_outside_library(items: Seq<ItemModel>, l: Seq<char>) -> spec_fn(
    FieldLockModel,
) -> bool {
    |x: FieldLockModel| !item_in_library(items, x.item_id, l)
}

/// Play-state rows whose item is not in the given library.
pub open spec fn play_outside_library(items: Seq<ItemModel>, l: Seq<char>) -> spec_fn(
    PlayStateModel,
) -> bool {
    |x: PlayStateModel| !item_in_library(items, x.item_id, l)
}

/// Access pairs for other libraries.
pub open spec fn access_other_library(l: Seq<char>) -> spec_fn((Seq<char>, Seq<char>)) -> bool {
    |p: (Seq<char>, Seq<char>)| p.1 != l
}

/// Whether the id names one of this library's items.
fn row_item_in_library(items: &Vec<ItemRow>, item_id: &str, l: &str) -> (r: bool)
    ensures
        r == item_in_library(items@.map_values(|x: ItemRow| x@), item_id@, l@),
{
    let ghost m = items@.map_values(|x: ItemRow| x@);
    let n: usize = items.len();
    let mut i: usize = 0;
    while i < n
        invariant
            0 <= i <= n,
            n == m.len(),
            m == items@.map_values(|x: ItemRow| x@),
            forall|j: int|
                0 <= j < i ==> !((#[trigger] m[j]).id == item_id@ && m[j].library_id == l@),
        decreases n - i,
    {
        proof {
            assert(m[i as int] == items@[i as int]@);
        }
        if crate::strutil::str_eq(items[i].id.as_str(), item_id) && crate::strutil::str_eq(
            items[i].library_id.as_str(),
            l,
        ) {
            return true;
        }
        i += 1;
    }
    false
}

/// The take of a whole table is the table, for every cascaded table.
proof fn lemma_cascade_full_takes(m0: StoreModel)
    ensures
        m0.file_maps.take(m0.file_maps.len() as int) == m0.file_maps,
        m0.provider_ids.take(m0.provider_ids.len() as int) == m0.provider_ids,
        m0.field_locks.take(m0.field_locks.len() as int) == m0.field_locks,
        m0.play_states.take(m0.play_states.len() as int) == m0.play_states,
        m0.items.take(m0.items.len() as int) == m0.items,
        m0.libraries.take(m0.libraries.len() as int) == m0.libraries,
        m0.library_paths.take(m0.library_paths.len() as int) == m0.library_paths,
        m0.library_settings.take(m0.library_settings.len() as int) == m0.library_settings,
        m0.user_access.take(m0.user_access.len() as int) == m0.user_access,
{
    assert(m0.file_maps.take(m0.file_maps.len() as int) =~= m0.file_maps);
    assert(m0.provider_ids.take(m0.provider_ids.len() as int) =~= m0.provider_ids);
    assert(m0.field_locks.take(m0.field_locks.len() as int) =~= m0.field_locks);
    assert(m0.play_states.take(m0.play_states.len() as int) =~= m0.play_states);
    assert(m0.items.take(m0.items.len() as int) =~= m0.items);
    assert(m0.libraries.take(m0.libraries.len() as int) =~= m0.libraries);
    assert(m0.library_paths.take(m0.library_paths.len() as int) =~= m0.library_paths);
    assert(m0.library_settings.take(m0.library_settings.len() as int) =~= m0.library_settings);
    assert(m0.user_access.take(m0.user_access.len() as int) =~= m0.user_access);
}

/// The cascade keeps the relational invariant: uniqueness and minted-id
/// facts restrict to subsequences, and a kept item's parent is kept with
/// it because a parent shares its child's library.
proof fn lemma_cascade_keeps_inv(m0: StoreModel, m1: StoreModel, l: Seq<char>)
    requires
        model_inv(m0),
        m1 == (StoreModel {
            libraries: m0.libraries.filter(lib_other(l)),
            library_paths: m0.library_paths.filter(lp_not_library(l)),
            library_settings: m0.library_settings.filter(ls_other(l)),
            items: m0.items.filter(item_other_library(l)),
            file_maps: m0.file_maps.filter(map_outside_library(m0.items, l)),
            provider_ids: m0.provider_ids.filter(prov_outside_library(m0.items, l)),
            field_locks: m0.field_locks.filter(lock_outside_library(m0.items, l)),
            play_states: m0.play_states.filter(play_outside_library(m0.items, l)),
            user_access: m0.user_access.filter(access_other_library(l)),
            ..m0
        }),
    ensures
        model_inv(m1),
{
    crate::strutil::lemma_filter_pairwise(
        m0.items,
        item_other_library(l),
        |a: ItemModel, b: ItemModel| a.id != b.id,
    );
    crate::strutil::lemma_filter_pairwise(
        m0.items,
        item_other_library(l),
        |a: ItemModel, b: ItemModel|
            !item_key_matches(a, b.library_id, b.kind, b.parent_id, b.title),
    );
    crate::strutil::lemma_filter_pairwise(
        m0.libraries,
        lib_other(l),
        |a: LibraryModel, b: LibraryModel| a.id != b.id,
    );
    crate::strutil::lemma_filter_pairwise(
        m0.provider_ids,
        prov_outside_library(m0.items, l),
        |a: ProviderIdModel, b: ProviderIdModel|
            !(a.item_id == b.item_id && a.provider == b.provider),
    );
    crate::strutil::lemma_filter_pairwise(
        m0.field_locks,
        lock_outside_library(m0.items, l),
        |a: FieldLockModel, b: FieldLockModel| !(a.item_id == b.item_id && a.field == b.field),
    );
    crate::strutil::lemma_filter_pairwise(
        m0.play_states,
        play_outside_library(m0.items, l),
        |a: PlayStateModel, b: PlayStateModel| !(a.user_id == b.user_id && a.item_id == b.item_id),
    );
    assert forall|a: int| 0 <= a < m1.items.len() implies id_ok(
        (#[trigger] m1.items[a]).id,
        m1.next_id,
    ) by {
        crate::strutil::lemma_filter_source(m0.items, item_other_library(l), a);
        let k = choose|k: int| 0 <= k < m0.items.len() && #[trigger] m0.items[k] == m1.items[a];
        assert(id_ok(m0.items[k].id, m0.next_id));
    }
    assert forall|a: int| 0 <= a < m1.file_maps.len() implies id_ok(
        (#[trigger] m1.file_maps[a]).id,
        m1.next_id,
    ) by {
        crate::strutil::lemma_filter_source(m0.file_maps, map_outside_library(m0.items, l), a);
        let k = choose|k: int|
            0 <= k < m0.file_maps.len() && #[trigger] m0.file_maps[k] == m1.file_maps[a];
        assert(id_ok(m0.file_maps[k].id, m0.next_id));
    }
    assert forall|a: int| 0 <= a < m1.libraries.len() implies id_ok(
        (#[trigger] m1.libraries[a]).id,
        m1.next_id,
    ) by {
        crate::strutil::lemma_filter_source(m0.libraries, lib_other(l), a);
        let k = choose|k: int|
            0 <= k < m0.libraries.len() && #[trigger] m0.libraries[k] == m1.libraries[a];
        assert(id_ok(m0.libraries[k].id, m0.next_id));
    }
    assert forall|a: int| 0 <= a < m1.library_paths.len() implies id_ok(
        (#[trigger] m1.library_paths[a]).id,
        m1.next_id,
    ) by {
        crate::strutil::lemma_filter_source(m0.library_paths, lp_not_library(l), a);
        let k = choose|k: int|
            0 <= k < m0.library_paths.len() && #[trigger] m0.library_paths[k]
                == m1.library_paths[a];
        assert(id_ok(m0.library_paths[k].id, m0.next_id));
    }
    // a kept item's parent sits in the same library, so it is kept too
    assert forall|a: int| 0 <= a < m1.items.len() implies parent_ok(
        m1.items,
        (#[trigger] m1.items[a]).library_id,
        m1.items[a].kind,
        m1.items[a].parent_id,
    ) by {
        crate::strutil::lemma_filter_source(m0.items, item_other_library(l), a);
        let k = choose|k: int| 0 <= k < m0.items.len() && #[trigger] m0.items[k] == m1.items[a];
        assert(parent_ok(
            m0.items,
            m0.items[k].library_id,
            m0.items[k].kind,
            m0.items[k].parent_id,
        ));
        match m0.items[k].kind {
            ItemKind::Season | ItemKind::Episode => {
                let p = m0.items[k].parent_id->Some_0;
                let w = choose|w: int|
                    0 <= w < m0.items.len() && (#[trigger] m0.items[w]).id == p && (
                    m0.items[w].kind == ItemKind::Series || m0.items[w].kind == ItemKind::Season)
                        && m0.items[w].library_id == m0.items[k].library_id;
                assert(item_other_library(l)(m0.items[w]));
                m0.items.lemma_filter_contains(item_other_library(l), w);
                assert(m1.items.contains(m0.items[w]));
                let idx = choose|idx: int| 0 <= idx < m1.items.len() && m1.items[idx] == m0.items[w];
                assert((#[trigger] m1.items[idx]).id == p);
            },
            _ => {},
        }
    }
}

/// The view of an optional borrowed string.
pub open spec fn opt_ref_view(o: Option<&str>) -> Option<Seq<char>> {
    match o {
        Some(s) => Some(s@),
        None => None,
    }
}

/// An owned copy of an optional borrowed string.
pub fn copy_opt_ref(o: Option<&str>) -> (r: Option<String>)
    ensures
        opt_view(r) == opt_ref_view(o),
{
    match o {
        Some(s) => Some(String::from_str(s)),
        None => None,
    }
}

/// The scanner key picks out one item: if some row matches the key, looking
/// the key up yields a row with the same id — which is why two
/// `find_or_create_item` calls with identical arguments return the same id.
pub proof fn lemma_find_or_create_idempotent(
    items: Seq<ItemModel>,
    library_id: Seq<char>,
    kind: ItemKind,
    parent_id: Option<Seq<char>>,
    title: Seq<char>,
    i: int,
)
    requires
        item_keys_unique(items),
        0 <= i < items.len(),
        item_key_matches(items[i], library_id, kind, parent_id, title),
    ensures
        match find_item_by_key(items, library_id, kind, parent_id, title) {
            Some(k) => items[k].id == items[i].id,
            None => false,
        },
{
    lemma_find_key_props(items, 0, library_id, kind, parent_id, title);
    match find_item_by_key(items, library_id, kind, parent_id, title) {
        Some(k) => {
            if k != i {
                if k < i {
                    assert(item_key_matches(
                        items[k],
                        items[i].library_id,
                        items[i].kind,
                        items[i].parent_id,
                        items[i].title,
                    ));
                } else {
                    assert(item_key_matches(
                        items[i],
                        items[k].library_id,
                        items[k].kind,
                        items[k].parent_id,
                        items[k].title,
                    ));
                }
                assert(false);
            }
        },
        None => {
            assert(!item_key_matches(items[i], library_id, kind, parent_id, title));
        },
    }
}

/// Every episode sits under a season, which sits under a series, all three
/// in the same library.
pub proof fn lemma_episode_parent_chain(items: Seq<ItemModel>, i: int)
    requires
        hierarchy_ok(items),
        0 <= i < items.len(),
        items[i].kind == ItemKind::Episode,
    ensures
        exists|s: int, r: int|
            {
                &&& 0 <= s < items.len()
                &&& 0 <= r < items.len()
                &&& items[i].parent_id == Some((#[trigger] items[s]).id)
                &&& items[s].kind == ItemKind::Season
                &&& items[s].library_id == items[i].library_id
                &&& items[s].parent_id == Some((#[trigger] items[r]).id)
                &&& items[r].kind == ItemKind::Series
                &&& items[r].library_id == items[i].library_id
            },
{
    assert(parent_ok(items, items[i].library_id, items[i].kind, items[i].parent_id));
    let p = items[i].parent_id->Some_0;
    let s = choose|w: int|
        0 <= w < items.len() && (#[trigger] items[w]).id == p && items[w].kind == ItemKind::Season
            && items[w].library_id == items[i].library_id;
    assert(parent_ok(items, items[s].library_id, items[s].kind, items[s].parent_id));
    let q = items[s].parent_id->Some_0;
    let r = choose|w: int|
        0 <= w < items.len() && (#[trigger] items[w]).id == q && items[w].kind == ItemKind::Series
            && items[w].library_id == items[s].library_id;
    assert(items[i].parent_id == Some(items[s].id));
    assert(items[s].parent_id == Some(items[r].id));
}

impl Store {
    // ─── media files and file maps ─────────────────────────────────────────

    /// Whether a media file with this on-disk path is already recorded.
    pub fn file_exists(&self, path: &str) -> (r: bool)
        ensures
            r == contains_file_path(self.model().media_files, path@),
    {
        let n: usize = self.media_files.len();
        let mut i: usize = 0;
        while i < n
            invariant
                0 <= i <= n,
                n == self.model().media_files.len(),
                forall|j: int|
                    0 <= j < i ==> (#[trigger] self.model().media_files[j]).path != path@,
            decreases n - i,
        {
            proof {
                assert(self.model().media_files[i as int] == self.media_files@[i as int]@);
            }
            if crate::strutil::str_eq(self.media_files[i].path.as_str(), path) {
                return true;
            }
            i += 1;
        }
        false
    }

    /// Record a new media file; the path must not be recorded yet.
    pub fn create_media_file(&mut self, path: &str, size_bytes: i64, mtime_ts: i64, now_ts: i64)
        -> (r: Result<String, StoreError>)
        requires
            old(self).inv(),
        ensures
            final(self).inv(),
            ({
                let m0 = old(self).model();
                match r {
                    Ok(id) => {
                        &&& !contains_file_path(m0.media_files, path@)
                        &&& m0.next_id < u64::MAX
                        &&& id@ == dec_str(m0.next_id)
                        &&& final(self).model() == (StoreModel {
                            next_id: m0.next_id + 1,
                            media_files: m0.media_files.push(
                                MediaFileModel {
                                    id: dec_str(m0.next_id),
                                    path: path@,
                                    size_bytes,
                                    mtime_ts,
                                    container: None,
                                    duration_ms: None,
                                    created_ts: now_ts,
                                    updated_ts: now_ts,
                                },
                            ),
                            ..m0
                        })
                    },
                    Err(StoreError::Conflict) => contains_file_path(m0.media_files, path@)
                        && final(self).model() == m0,
                    Err(StoreError::Full) => !contains_file_path(m0.media_files, path@)
                        && m0.next_id == u64::MAX && final(self).model() == m0,
                    Err(StoreError::NotFound) | Err(StoreError::Internal) => false,
                }
            }),
    {
        let ghost m0 = self.model();
        if self.file_exists(path) {
            return Err(StoreError::Conflict);
        }
        let id = match self.mint_id() {
            Ok(id) => id,
            Err(e) => {
                return Err(e);
            },
        };
        let row = MediaFileRow {
            id: id.clone(),
            path: String::from_str(path),
            size_bytes,
            mtime_ts,
            container: None,
            duration_ms: None,
            created_ts: now_ts,
            updated_ts: now_ts,
        };
        let ghost grow = row@;
        self.media_files.push(row);
        proof {
            let m1 = self.model();
            assert(m1.media_files =~= m0.media_files.push(grow));
            assert(m1 == StoreModel { next_id: m0.next_id + 1, media_files: m1.media_files, ..m0 });
            assert forall|a: int, b: int|
                0 <= a < b < m1.media_files.len() implies (#[trigger] m1.media_files[a]).id != (
            #[trigger] m1.media_files[b]).id by {
                if b == m1.media_files.len() - 1 {
                    lemma_id_fresh(m0.media_files[a].id, m0.next_id);
                }
            }
            assert forall|a: int|
                0 <= a < m1.media_files.len() implies id_ok(
                (#[trigger] m1.media_files[a]).id,
                m1.next_id,
            ) by {
                if a < m1.media_files.len() - 1 {
                    let w = choose|w: nat| w < m0.next_id && m0.media_files[a].id == dec_str(w);
                    assert(w < m1.next_id);
                } else {
                    assert(m1.media_files[a].id == dec_str(m0.next_id));
                }
            }
            assert forall|a: int|
                0 <= a < m1.items.len() implies id_ok((#[trigger] m1.items[a]).id, m1.next_id) by {
                let w = choose|w: nat| w < m0.next_id && m0.items[a].id == dec_str(w);
                assert(w < m1.next_id);
            }
            assert forall|a: int|
                0 <= a < m1.file_maps.len() implies id_ok(
                (#[trigger] m1.file_maps[a]).id,
                m1.next_id,
            ) by {
                let w = choose|w: nat| w < m0.next_id && m0.file_maps[a].id == dec_str(w);
                assert(w < m1.next_id);
            }
            assert forall|a: int|
                0 <= a < m1.libraries.len() implies id_ok(
                (#[trigger] m1.libraries[a]).id,
                m1.next_id,
            ) by {
                let w = choose|w: nat| w < m0.next_id && m0.libraries[a].id == dec_str(w);
                assert(w < m1.next_id);
            }
            assert forall|a: int|
                0 <= a < m1.library_paths.len() implies id_ok(
                (#[trigger] m1.library_paths[a]).id,
                m1.next_id,
            ) by {
                let w = choose|w: nat| w < m0.next_id && m0.library_paths[a].id == dec_str(w);
                assert(w < m1.next_id);
            }
            assert forall|a: int|
                0 <= a < m1.users.len() implies id_ok((#[trigger] m1.users[a]).id, m1.next_id) by {
                let w = choose|w: nat| w < m0.next_id && m0.users[a].id == dec_str(w);
                assert(w < m1.next_id);
            }
            assert forall|a: int|
                0 <= a < m1.jobs.len() implies id_ok((#[trigger] m1.jobs[a]).id, m1.next_id) by {
                let w = choose|w: nat| w < m0.next_id && m0.jobs[a].id == dec_str(w);
                assert(w < m1.next_id);
            }
        }
        Ok(id)
    }

    /// Link an item to the media file that realises it.
    pub fn create_file_map(&mut self, item_id: &str, file_id: &str, map_kind: &str, now_ts: i64)
        -> (r: Result<String, StoreError>)
        requires
            old(self).inv(),
        ensures
            final(self).inv(),
            ({
                let m0 = old(self).model();
                match r {
                    Ok(id) => {
                        &&& m0.next_id < u64::MAX
                        &&& id@ == dec_str(m0.next_id)
                        &&& final(self).model() == (StoreModel {
                            next_id: m0.next_id + 1,
                            file_maps: m0.file_maps.push(
                                FileMapModel {
                                    id: dec_str(m0.next_id),
                                    item_id: item_id@,
                                    file_id: file_id@,
                                    map_kind: map_kind@,
                                    created_ts: now_ts,
                                },
                            ),
                            ..m0
                        })
                    },
                    Err(StoreError::Full) => m0.next_id == u64::MAX && final(self).model() == m0,
                    _ => false,
                }
            }),
    {
        let ghost m0 = self.model();
        let id = match self.mint_id() {
            Ok(id) => id,
            Err(e) => {
                return Err(e);
            },
        };
        let row = FileMapRow {
            id: id.clone(),
            item_id: String::from_str(item_id),
            file_id: String::from_str(file_id),
            map_kind: String::from_str(map_kind),
            created_ts: now_ts,
        };
        let ghost grow = row@;
        self.file_maps.push(row);
        proof {
            let m1 = self.model();
            assert(m1.file_maps =~= m0.file_maps.push(grow));
            assert(m1 == StoreModel { next_id: m0.next_id + 1, file_maps: m1.file_maps, ..m0 });
            assert forall|a: int|
                0 <= a < m1.file_maps.len() implies id_ok(
                (#[trigger] m1.file_maps[a]).id,
                m1.next_id,
            ) by {
                if a < m1.file_maps.len() - 1 {
                    let w = choose|w: nat| w < m0.next_id && m0.file_maps[a].id == dec_str(w);
                    assert(w < m1.next_id);
                } else {
                    assert(m1.file_maps[a].id == dec_str(m0.next_id));
                }
            }
            assert forall|a: int|
                0 <= a < m1.items.len() implies id_ok((#[trigger] m1.items[a]).id, m1.next_id) by {
                let w = choose|w: nat| w < m0.next_id && m0.items[a].id == dec_str(w);
                assert(w < m1.next_id);
            }
            assert forall|a: int|
                0 <= a < m1.media_files.len() implies id_ok(
                (#[trigger] m1.media_files[a]).id,
                m1.next_id,
            ) by {
                let w = choose|w: nat| w < m0.next_id && m0.media_files[a].id == dec_str(w);
                assert(w < m1.next_id);
            }
            assert forall|a: int|
                0 <= a < m1.libraries.len() implies id_ok(
                (#[trigger] m1.libraries[a]).id,
                m1.next_id,
            ) by {
                let w = choose|w: nat| w < m0.next_id && m0.libraries[a].id == dec_str(w);
                assert(w < m1.next_id);
            }
            assert forall|a: int|
                0 <= a < m1.library_paths.len() implies id_ok(
                (#[trigger] m1.library_paths[a]).id,
                m1.next_id,
            ) by {
                let w = choose|w: nat| w < m0.next_id && m0.library_paths[a].id == dec_str(w);
                assert(w < m1.next_id);
            }
            assert forall|a: int|
                0 <= a < m1.users.len() implies id_ok((#[trigger] m1.users[a]).id, m1.next_id) by {
                let w = choose|w: nat| w < m0.next_id && m0.users[a].id == dec_str(w);
                assert(w < m1.next_id);
            }
            assert forall|a: int|
                0 <= a < m1.jobs.len() implies id_ok((#[trigger] m1.jobs[a]).id, m1.next_id) by {
                let w = choose|w: nat| w < m0.next_id && m0.jobs[a].id == dec_str(w);
                assert(w < m1.next_id);
            }
        }
        Ok(id)
    }

    /// The media file id linked to an item, if any.
    pub fn get_item_file_id(&self, item_id: &str) -> (r: Option<String>)
        ensures
            match (r, find_map_by_item_from(self.model().file_maps, 0, item_id@)) {
                (Some(id), Some(k)) => id@ == self.model().file_maps[k].file_id,
                (None, None) => true,
                _ => false,
            },
    {
        let n: usize = self.file_maps.len();
        let mut i: usize = 0;
        while i < n
            invariant
                0 <= i <= n,
                n == self.model().file_maps.len(),
                find_map_by_item_from(self.model().file_maps, 0, item_id@)
                    == find_map_by_item_from(self.model().file_maps, i as int, item_id@),
            decreases n - i,
        {
            proof {
                assert(self.model().file_maps[i as int] == self.file_maps@[i as int]@);
            }
            if crate::strutil::str_eq(self.file_maps[i].item_id.as_str(), item_id) {
                return Some(self.file_maps[i].file_id.clone());
            }
            i += 1;
        }
        None
    }

    /// The item id a media file is linked to, if any.
    pub fn get_item_id_by_file_id(&self, file_id: &str) -> (r: Option<String>)
        ensures
            match (r, find_map_by_file_from(self.model().file_maps, 0, file_id@)) {
                (Some(id), Some(k)) => id@ == self.model().file_maps[k].item_id,
                (None, None) => true,
                _ => false,
            },
    {
        let n: usize = self.file_maps.len();
        let mut i: usize = 0;
        while i < n
            invariant
                0 <= i <= n,
                n == self.model().file_maps.len(),
                find_map_by_file_from(self.model().file_maps, 0, file_id@)
                    == find_map_by_file_from(self.model().file_maps, i as int, file_id@),
            decreases n - i,
        {
            proof {
                assert(self.model().file_maps[i as int] == self.file_maps@[i as int]@);
            }
            if crate::strutil::str_eq(self.file_maps[i].file_id.as_str(), file_id) {
                return Some(self.file_maps[i].item_id.clone());
            }
            i += 1;
        }
        None
    }

    /// Fetch a media file row by id.
    pub fn get_media_file(&self, file_id: &str) -> (r: Option<MediaFileRow>)
        ensures
            match (r, find_file_by_id(self.model().media_files, file_id@)) {
                (Some(row), Some(k)) => row@ == self.model().media_files[k] && row@.id == file_id@,
                (None, None) => true,
                _ => false,
            },
    {
        let n: usize = self.media_files.len();
        let mut i: usize = 0;
        while i < n
            invariant
                0 <= i <= n,
                n == self.model().media_files.len(),
                find_file_by_id(self.model().media_files, file_id@) == find_file_by_id_from(
                    self.model().media_files,
                    i as int,
                    file_id@,
                ),
            decreases n - i,
        {
            proof {
                assert(self.model().media_files[i as int] == self.media_files@[i as int]@);
            }
            if crate::strutil::str_eq(self.media_files[i].id.as_str(), file_id) {
                let f = &self.media_files[i];
                return Some(
                    MediaFileRow {
                        id: f.id.clone(),
                        path: f.path.clone(),
                        size_bytes: f.size_bytes,
                        mtime_ts: f.mtime_ts,
                        container: clone_opt(&f.container),
                        duration_ms: f.duration_ms,
                        created_ts: f.created_ts,
                        updated_ts: f.updated_ts,
                    },
                );
            }
            i += 1;
        }
        None
    }

    /// The on-disk path of the media file linked to an item, if any.
    pub fn get_item_media_path(&self, item_id: &str) -> (r: Option<String>)
        ensures
            match find_map_by_item_from(self.model().file_maps, 0, item_id@) {
                Some(k) => match (
                    r,
                    find_file_by_id(
                        self.model().media_files,
                        self.model().file_maps[k].file_id,
                    ),
                ) {
                    (Some(p), Some(f)) => p@ == self.model().media_files[f].path,
                    (None, None) => true,
                    _ => false,
                },
                None => r is None,
            },
    {
        match self.get_item_file_id(item_id) {
            Some(fid) => match self.get_media_file(fid.as_str()) {
                Some(row) => Some(row.path),
                None => None,
            },
            None => None,
        }
    }

    /// Whether `id` names the root or an item at most two parent edges
    /// below it — which, under the hierarchy rule, is every descendant.
    fn is_descendant_within_two(&self, root: &str, id: &str) -> (r: bool)
        requires
            self.inv(),
        ensures
            r == descendant_within(self.model().items, root@, id@, 2),
    {
        let ghost m = self.model().items;
        if crate::strutil::str_eq(id, root) {
            return true;
        }
        let k = match self.position_item_by_id(id) {
            Some(k) => k,
            None => {
                proof {
                    lemma_find_id_props(m, 0, id@);
                    assert(!descendant_within(m, root@, id@, 2));
                }
                return false;
            },
        };
        proof {
            lemma_find_id_props(m, 0, id@);
        }
        let parent = match &self.items[k].parent_id {
            Some(p) => p,
            None => {
                proof {
                    lemma_no_parent_no_chain(m, root@, id@, k as int);
                }
                return false;
            },
        };
        proof {
            assert(m[k as int] == self.items@[k as int]@);
        }
        if crate::strutil::str_eq(parent.as_str(), root) {
            proof {
                assert(m[k as int].id == id@ && (m[k as int].parent_id matches Some(p)
                    && descendant_within(m, root@, p, 1nat)));
            }
            return true;
        }
        let ghost gp = m[k as int].parent_id->Some_0;
        let k2 = match self.position_item_by_id(parent.as_str()) {
            Some(k2) => k2,
            None => {
                proof {
                    lemma_find_id_props(m, 0, gp);
                    if descendant_within(m, root@, gp, 1nat) {
                        let w = choose|w: int|
                            {
                                &&& 0 <= w < m.len()
                                &&& (#[trigger] m[w]).id == gp
                                &&& m[w].parent_id matches Some(q) && descendant_within(
                                    m,
                                    root@,
                                    q,
                                    0nat,
                                )
                            };
                        assert(false);
                    }
                    lemma_parent_chain_stops(m, root@, id@, k as int);
                }
                return false;
            },
        };
        proof {
            lemma_find_id_props(m, 0, gp);
            assert(m[k2 as int] == self.items@[k2 as int]@);
        }
        let grandparent = match &self.items[k2].parent_id {
            Some(q) => q,
            None => {
                proof {
                    if descendant_within(m, root@, gp, 1nat) {
                        let w = choose|w: int|
                            {
                                &&& 0 <= w < m.len()
                                &&& (#[trigger] m[w]).id == gp
                                &&& m[w].parent_id matches Some(q) && descendant_within(
                                    m,
                                    root@,
                                    q,
                                    0nat,
                                )
                            };
                        if w != k2 as int {
                            assert(m[w].id == m[k2 as int].id);
                        }
                        assert(false);
                    }
                    lemma_parent_chain_stops(m, root@, id@, k as int);
                }
                return false;
            },
        };
        let hit = crate::strutil::str_eq(grandparent.as_str(), root);
        proof {
            if hit {
                assert(m[k2 as int].id == gp && (m[k2 as int].parent_id matches Some(q)
                    && descendant_within(m, root@, q, 0nat)));
                assert(descendant_within(m, root@, gp, 1nat));
                assert(m[k as int].id == id@ && (m[k as int].parent_id matches Some(p)
                    && descendant_within(m, root@, p, 1nat)));
            } else {
                if descendant_within(m, root@, gp, 1nat) {
                    let w = choose|w: int|
                        {
                            &&& 0 <= w < m.len()
                            &&& (#[trigger] m[w]).id == gp
                            &&& m[w].parent_id matches Some(q) && descendant_within(
                                m,
                                root@,
                                q,
                                0nat,
                            )
                        };
                    if w != k2 as int {
                        assert(m[w].id == m[k2 as int].id);
                    }
                    assert(m[k2 as int].parent_id->Some_0 == root@);
                    assert(false);
                }
                lemma_parent_chain_stops(m, root@, id@, k as int);
            }
        }
        hit
    }

    /// The on-disk path of a media file linked to the item or to one of its
    /// descendants; `None` when no descendant's link resolves to a file.
    /// Links are probed in their table order, which for scanner-written
    /// rows is creation order.
    pub fn get_first_descendant_media_path(&self, item_id: &str) -> (r: Option<String>)
        requires
            self.inv(),
        ensures
            match r {
                Some(p) => exists|j: int, f: int|
                    {
                        &&& 0 <= j < self.model().file_maps.len()
                        &&& 0 <= f < self.model().media_files.len()
                        &&& descendant_within(
                            self.model().items,
                            item_id@,
                            (#[trigger] self.model().file_maps[j]).item_id,
                            2,
                        )
                        &&& self.model().file_maps[j].file_id == (
                        #[trigger] self.model().media_files[f]).id
                        &&& self.model().media_files[f].path == p@
                    },
                None => forall|j: int|
                    0 <= j < self.model().file_maps.len() ==> !(descendant_within(
                        self.model().items,
                        item_id@,
                        (#[trigger] self.model().file_maps[j]).item_id,
                        2,
                    ) && exists|f: int|
                        0 <= f < self.model().media_files.len() && (
                        #[trigger] self.model().media_files[f]).id
                            == self.model().file_maps[j].file_id),
            },
    {
        let n: usize = self.file_maps.len();
        let mut j: usize = 0;
        while j < n
            invariant
                0 <= j <= n,
                n == self.model().file_maps.len(),
                self.inv(),
                forall|jj: int|
                    0 <= jj < j ==> !(descendant_within(
                        self.model().items,
                        item_id@,
                        (#[trigger] self.model().file_maps[jj]).item_id,
                        2,
                    ) && exists|f: int|
                        0 <= f < self.model().media_files.len() && (
                        #[trigger] self.model().media_files[f]).id
                            == self.model().file_maps[jj].file_id),
            decreases n - j,
        {
            proof {
                assert(self.model().file_maps[j as int] == self.file_maps@[j as int]@);
            }
            if self.is_descendant_within_two(item_id, self.file_maps[j].item_id.as_str()) {
                match self.get_media_file(self.file_maps[j].file_id.as_str()) {
                    Some(row) => {
                        proof {
                            lemma_find_file_id_props(
                                self.model().media_files,
                                0,
                                self.model().file_maps[j as int].file_id,
                            );
                        }
                        return Some(row.path);
                    },
                    None => {
                        proof {
                            lemma_find_file_id_props(
                                self.model().media_files,
                                0,
                                self.model().file_maps[j as int].file_id,
                            );
                        }
                    },
                }
            }
            j += 1;
        }
        None
    }

    // ─── provider IDs ──────────────────────────────────────────────────────

    /// Store a provider ID for an item with conflict-update semantics.
    pub fn set_provider_id(&mut self, item_id: &str, provider: &str, value: &str)
        requires
            old(self).inv(),
        ensures
            final(self).inv(),
            final(self).model() == (StoreModel {
                provider_ids: set_provider_spec(
                    old(self).model().provider_ids,
                    item_id@,
                    provider@,
                    value@,
                ),
                ..old(self).model()
            }),
    {
        let ghost m0 = self.model();
        let n: usize = self.provider_ids.len();
        let mut i: usize = 0;
        while i < n
            invariant
                0 <= i <= n,
                n == self.model().provider_ids.len(),
                self.model() == m0,
                find_provider_from(m0.provider_ids, 0, item_id@, provider@)
                    == find_provider_from(m0.provider_ids, i as int, item_id@, provider@),
                old(self).inv(),
                m0 == old(self).model(),
            decreases n - i,
        {
            proof {
                assert(self.model().provider_ids[i as int] == self.provider_ids@[i as int]@);
            }
            if crate::strutil::str_eq(self.provider_ids[i].item_id.as_str(), item_id)
                && crate::strutil::str_eq(self.provider_ids[i].provider.as_str(), provider) {
                let row = ProviderIdRow {
                    item_id: String::from_str(item_id),
                    provider: String::from_str(provider),
                    value: String::from_str(value),
                };
                let ghost grow = row@;
                self.provider_ids.set(i, row);
                proof {
                    let m1 = self.model();
                    assert(m1.provider_ids =~= m0.provider_ids.update(i as int, grow));
                    assert(m1 == StoreModel { provider_ids: m1.provider_ids, ..m0 });
                    assert forall|a: int, b: int|
                        0 <= a < b < m1.provider_ids.len() implies !((
                    #[trigger] m1.provider_ids[a]).item_id == (
                    #[trigger] m1.provider_ids[b]).item_id && m1.provider_ids[a].provider
                        == m1.provider_ids[b].provider) by {
                        assert(m1.provider_ids[a].item_id == m0.provider_ids[a].item_id
                            && m1.provider_ids[a].provider == m0.provider_ids[a].provider);
                        assert(m1.provider_ids[b].item_id == m0.provider_ids[b].item_id
                            && m1.provider_ids[b].provider == m0.provider_ids[b].provider);
                    }
                }
                return ;
            }
            i += 1;
        }
        let row = ProviderIdRow {
            item_id: String::from_str(item_id),
            provider: String::from_str(provider),
            value: String::from_str(value),
        };
        let ghost grow = row@;
        self.provider_ids.push(row);
        proof {
            let m1 = self.model();
            assert(m1.provider_ids =~= m0.provider_ids.push(grow));
            assert(m1 == StoreModel { provider_ids: m1.provider_ids, ..m0 });
            lemma_find_provider_props(m0.provider_ids, 0, item_id@, provider@);
            assert forall|a: int, b: int|
                0 <= a < b < m1.provider_ids.len() implies !((
            #[trigger] m1.provider_ids[a]).item_id == (#[trigger] m1.provider_ids[b]).item_id
                && m1.provider_ids[a].provider == m1.provider_ids[b].provider) by {
                if b == m1.provider_ids.len() - 1 {
                    assert(m1.provider_ids[a] == m0.provider_ids[a]);
                }
            }
        }
    }

    /// All provider IDs of an item, as `(provider, value)` pairs.
    pub fn get_provider_ids(&self, item_id: &str) -> (r: Vec<(String, String)>)
        ensures
            r@.map_values(|p: (String, String)| (p.0@, p.1@)) == self.model().provider_ids.filter(
                prov_of_item(item_id@),
            ).map_values(|p: ProviderIdModel| (p.provider, p.value)),
    {
        let ghost m = self.model().provider_ids;
        let n: usize = self.provider_ids.len();
        let mut out: Vec<(String, String)> = Vec::new();
        let mut i: usize = 0;
        while i < n
            invariant
                0 <= i <= n,
                n == m.len(),
                m == self.model().provider_ids,
                out@.map_values(|p: (String, String)| (p.0@, p.1@)) == m.take(i as int).filter(
                    prov_of_item(item_id@),
                ).map_values(|p: ProviderIdModel| (p.provider, p.value)),
            decreases n - i,
        {
            proof {
                assert(m[i as int] == self.provider_ids@[i as int]@);
                crate::strutil::lemma_filter_take_step(m, i as int, prov_of_item(item_id@));
            }
            let ghost old_out = out@;
            if crate::strutil::str_eq(self.provider_ids[i].item_id.as_str(), item_id) {
                out.push(
                    (self.provider_ids[i].provider.clone(), self.provider_ids[i].value.clone()),
                );
                proof {
                    assert(out@.map_values(|p: (String, String)| (p.0@, p.1@)) =~= old_out
                        .map_values(|p: (String, String)| (p.0@, p.1@)).push(
                        (m[i as int].provider, m[i as int].value),
                    ));
                    assert(m.take(i + 1 as int).filter(prov_of_item(item_id@)).map_values(
                        |p: ProviderIdModel| (p.provider, p.value),
                    ) =~= m.take(i as int).filter(prov_of_item(item_id@)).map_values(
                        |p: ProviderIdModel| (p.provider, p.value),
                    ).push((m[i as int].provider, m[i as int].value)));
                }
            }
            i += 1;
        }
        proof {
            assert(m.take(n as int) =~= m);
        }
        out
    }

    // ─── field locks ───────────────────────────────────────────────────────

    /// Lock a field for an item (user override); locking twice is a no-op.
    pub fn lock_field(&mut self, item_id: &str, field: &str, now_ts: i64)
        requires
            old(self).inv(),
        ensures
            final(self).inv(),
            final(self).model() == (StoreModel {
                field_locks: match find_lock_from(
                    old(self).model().field_locks,
                    0,
                    item_id@,
                    field@,
                ) {
                    Some(_) => old(self).model().field_locks,
                    None => old(self).model().field_locks.push(
                        FieldLockModel { item_id: item_id@, field: field@, locked_ts: now_ts },
                    ),
                },
                ..old(self).model()
            }),
    {
        let ghost m0 = self.model();
        let n: usize = self.field_locks.len();
        let mut i: usize = 0;
        while i < n
            invariant
                0 <= i <= n,
                n == self.model().field_locks.len(),
                self.model() == m0,
                find_lock_from(m0.field_locks, 0, item_id@, field@) == find_lock_from(
                    m0.field_locks,
                    i as int,
                    item_id@,
                    field@,
                ),
                old(self).inv(),
                m0 == old(self).model(),
            decreases n - i,
        {
            proof {
                assert(self.model().field_locks[i as int] == self.field_locks@[i as int]@);
            }
            if crate::strutil::str_eq(self.field_locks[i].item_id.as_str(), item_id)
                && crate::strutil::str_eq(self.field_locks[i].field.as_str(), field) {
                proof {
                    assert(m0 == StoreModel { field_locks: m0.field_locks, ..m0 });
                }
                return ;
            }
            i += 1;
        }
        let row = FieldLockRow {
            item_id: String::from_str(item_id),
            field: String::from_str(field),
            locked_ts: now_ts,
        };
        let ghost grow = row@;
        self.field_locks.push(row);
        proof {
            let m1 = self.model();
            assert(m1.field_locks =~= m0.field_locks.push(grow));
            assert(m1 == StoreModel { field_locks: m1.field_locks, ..m0 });
            lemma_find_lock_props(m0.field_locks, 0, item_id@, field@);
            assert forall|a: int, b: int|
                0 <= a < b < m1.field_locks.len() implies !((
            #[trigger] m1.field_locks[a]).item_id == (#[trigger] m1.field_locks[b]).item_id
                && m1.field_locks[a].field == m1.field_locks[b].field) by {
                if b == m1.field_locks.len() - 1 {
                    assert(m1.field_locks[a] == m0.field_locks[a]);
                }
            }
        }
    }

    /// Unlock a field for an item; absent locks are left alone.
    pub fn unlock_field(&mut self, item_id: &str, field: &str)
        requires
            old(self).inv(),
        ensures
            final(self).inv(),
            final(self).model() == (StoreModel {
                field_locks: match find_lock_from(
                    old(self).model().field_locks,
                    0,
                    item_id@,
                    field@,
                ) {
                    Some(k) => old(self).model().field_locks.remove(k),
                    None => old(self).model().field_locks,
                },
                ..old(self).model()
            }),
    {
        let ghost m0 = self.model();
        let n: usize = self.field_locks.len();
        let mut i: usize = 0;
        while i < n
            invariant
                0 <= i <= n,
                n == self.model().field_locks.len(),
                self.model() == m0,
                find_lock_from(m0.field_locks, 0, item_id@, field@) == find_lock_from(
                    m0.field_locks,
                    i as int,
                    item_id@,
                    field@,
                ),
                old(self).inv(),
                m0 == old(self).model(),
            decreases n - i,
        {
            proof {
                assert(self.model().field_locks[i as int] == self.field_locks@[i as int]@);
            }
            if crate::strutil::str_eq(self.field_locks[i].item_id.as_str(), item_id)
                && crate::strutil::str_eq(self.field_locks[i].field.as_str(), field) {
                self.field_locks.remove(i);
                proof {
                    let m1 = self.model();
                    assert(m1.field_locks =~= m0.field_locks.remove(i as int));
                    assert(m1 == StoreModel { field_locks: m1.field_locks, ..m0 });
                    assert forall|a: int, b: int|
                        0 <= a < b < m1.field_locks.len() implies !((
                    #[trigger] m1.field_locks[a]).item_id == (#[trigger] m1.field_locks[b]).item_id
                        && m1.field_locks[a].field == m1.field_locks[b].field) by {
                        let sa = if a < i as int { a } else { a + 1 };
                        let sb = if b < i as int { b } else { b + 1 };
                        assert(m1.field_locks[a] == m0.field_locks[sa]);
                        assert(m1.field_locks[b] == m0.field_locks[sb]);
                    }
                }
                return ;
            }
            i += 1;
        }
        proof {
            assert(m0 == StoreModel { field_locks: m0.field_locks, ..m0 });
        }
    }

    /// The locked fields of an item.
    pub fn get_locked_fields(&self, item_id: &str) -> (r: Vec<String>)
        ensures
            r@.map_values(|f: String| f@) == self.model().field_locks.filter(
                lock_of_item(item_id@),
            ).map_values(|l: FieldLockModel| l.field),
    {
        let ghost m = self.model().field_locks;
        let n: usize = self.field_locks.len();
        let mut out: Vec<String> = Vec::new();
        let mut i: usize = 0;
        while i < n
            invariant
                0 <= i <= n,
                n == m.len(),
                m == self.model().field_locks,
                out@.map_values(|f: String| f@) == m.take(i as int).filter(
                    lock_of_item(item_id@),
                ).map_values(|l: FieldLockModel| l.field),
            decreases n - i,
        {
            proof {
                assert(m[i as int] == self.field_locks@[i as int]@);
                crate::strutil::lemma_filter_take_step(m, i as int, lock_of_item(item_id@));
            }
            let ghost old_out = out@;
            if crate::strutil::str_eq(self.field_locks[i].item_id.as_str(), item_id) {
                out.push(self.field_locks[i].field.clone());
                proof {
                    assert(out@.map_values(|f: String| f@) =~= old_out.map_values(
                        |f: String| f@,
                    ).push(m[i as int].field));
                    assert(m.take(i + 1 as int).filter(lock_of_item(item_id@)).map_values(
                        |l: FieldLockModel| l.field,
                    ) =~= m.take(i as int).filter(lock_of_item(item_id@)).map_values(
                        |l: FieldLockModel| l.field,
                    ).push(m[i as int].field));
                }
            }
            i += 1;
        }
        proof {
            assert(m.take(n as int) =~= m);
        }
        out
    }

    // ─── play state ────────────────────────────────────────────────────────

    /// Set a user's progress on an item: a set-to operation with
    /// conflict-update semantics.
    pub fn update_progress(
        &mut self,
        user_id: &str,
        item_id: &str,
        progress_ms: i64,
        played: bool,
        now_ts: i64,
    )
        requires
            old(self).inv(),
        ensures
            final(self).inv(),
            final(self).model() == (StoreModel {
                play_states: update_progress_spec(
                    old(self).model().play_states,
                    user_id@,
                    item_id@,
                    progress_ms,
                    played,
                    now_ts,
                ),
                ..old(self).model()
            }),
    {
        let ghost m0 = self.model();
        let n: usize = self.play_states.len();
        let mut i: usize = 0;
        while i < n
            invariant
                0 <= i <= n,
                n == self.model().play_states.len(),
                self.model() == m0,
                find_play_from(m0.play_states, 0, user_id@, item_id@) == find_play_from(
                    m0.play_states,
                    i as int,
                    user_id@,
                    item_id@,
                ),
                old(self).inv(),
                m0 == old(self).model(),
            decreases n - i,
        {
            proof {
                assert(self.model().play_states[i as int] == self.play_states@[i as int]@);
            }
            if crate::strutil::str_eq(self.play_states[i].user_id.as_str(), user_id)
                && crate::strutil::str_eq(self.play_states[i].item_id.as_str(), item_id) {
                let favorite = self.play_states[i].favorite;
                let row = PlayStateRow {
                    user_id: String::from_str(user_id),
                    item_id: String::from_str(item_id),
                    played,
                    progress_ms,
                    last_played_ts: Some(now_ts),
                    favorite,
                };
                let ghost grow = row@;
                self.play_states.set(i, row);
                proof {
                    let m1 = self.model();
                    assert(m1.play_states =~= m0.play_states.update(i as int, grow));
                    assert(m1 == StoreModel { play_states: m1.play_states, ..m0 });
                    assert forall|a: int, b: int|
                        0 <= a < b < m1.play_states.len() implies !((
                    #[trigger] m1.play_states[a]).user_id == (
                    #[trigger] m1.play_states[b]).user_id && m1.play_states[a].item_id
                        == m1.play_states[b].item_id) by {
                        assert(m1.play_states[a].user_id == m0.play_states[a].user_id
                            && m1.play_states[a].item_id == m0.play_states[a].item_id);
                        assert(m1.play_states[b].user_id == m0.play_states[b].user_id
                            && m1.play_states[b].item_id == m0.play_states[b].item_id);
                    }
                }
                return ;
            }
            i += 1;
        }
        let row = PlayStateRow {
            user_id: String::from_str(user_id),
            item_id: String::from_str(item_id),
            played,
            progress_ms,
            last_played_ts: Some(now_ts),
            favorite: false,
        };
        let ghost grow = row@;
        self.play_states.push(row);
        proof {
            let m1 = self.model();
            assert(m1.play_states =~= m0.play_states.push(grow));
            assert(m1 == StoreModel { play_states: m1.play_states, ..m0 });
            lemma_find_play_props(m0.play_states, 0, user_id@, item_id@);
            assert forall|a: int, b: int|
                0 <= a < b < m1.play_states.len() implies !((
            #[trigger] m1.play_states[a]).user_id == (#[trigger] m1.play_states[b]).user_id
                && m1.play_states[a].item_id == m1.play_states[b].item_id) by {
                if b == m1.play_states.len() - 1 {
                    assert(m1.play_states[a] == m0.play_states[a]);
                }
            }
        }
    }

    /// A user's play state on an item, if any.
    pub fn get_play_state(&self, user_id: &str, item_id: &str) -> (r: Option<PlayStateRow>)
        ensures
            match (r, find_play_from(self.model().play_states, 0, user_id@, item_id@)) {
                (Some(row), Some(k)) => row@ == self.model().play_states[k],
                (None, None) => true,
                _ => false,
            },
    {
        let n: usize = self.play_states.len();
        let mut i: usize = 0;
        while i < n
            invariant
                0 <= i <= n,
                n == self.model().play_states.len(),
                find_play_from(self.model().play_states, 0, user_id@, item_id@) == find_play_from(
                    self.model().play_states,
                    i as int,
                    user_id@,
                    item_id@,
                ),
            decreases n - i,
        {
            proof {
                assert(self.model().play_states[i as int] == self.play_states@[i as int]@);
            }
            if crate::strutil::str_eq(self.play_states[i].user_id.as_str(), user_id)
                && crate::strutil::str_eq(self.play_states[i].item_id.as_str(), item_id) {
                let p = &self.play_states[i];
                return Some(
                    PlayStateRow {
                        user_id: p.user_id.clone(),
                        item_id: p.item_id.clone(),
                        played: p.played,
                        progress_ms: p.progress_ms,
                        last_played_ts: p.last_played_ts,
                        favorite: p.favorite,
                    },
                );
            }
            i += 1;
        }
        None
    }
}

impl Store {
    /// Top-level items of a library (those without a parent).
    pub fn get_library_items(&self, library_id: &str) -> (r: Vec<ItemRow>)
        ensures
            r@.map_values(|it: ItemRow| it@) == self.model().items.filter(
                top_of_library(library_id@),
            ),
    {
        let ghost m = self.model().items;
        let n: usize = self.items.len();
        let mut out: Vec<ItemRow> = Vec::new();
        let mut i: usize = 0;
        while i < n
            invariant
                0 <= i <= n,
                n == m.len(),
                m == self.model().items,
                out@.map_values(|it: ItemRow| it@) == m.take(i as int).filter(
                    top_of_library(library_id@),
                ),
            decreases n - i,
        {
            proof {
                assert(m[i as int] == self.items@[i as int]@);
                crate::strutil::lemma_filter_take_step(m, i as int, top_of_library(library_id@));
            }
            let ghost old_out = out@;
            let hit = self.items[i].parent_id.is_none() && crate::strutil::str_eq(
                self.items[i].library_id.as_str(),
                library_id,
            );
            if hit {
                out.push(self.items[i].duplicate());
                proof {
                    assert(out@.map_values(|it: ItemRow| it@) =~= old_out.map_values(
                        |it: ItemRow| it@,
                    ).push(m[i as int]));
                    assert(m.take(i + 1 as int).filter(top_of_library(library_id@)) =~= m.take(
                        i as int,
                    ).filter(top_of_library(library_id@)).push(m[i as int]));
                }
            }
            i += 1;
        }
        proof {
            assert(m.take(n as int) =~= m);
        }
        out
    }

    /// The children of an item, in creation order.
    pub fn get_children(&self, parent_id: &str) -> (r: Vec<ItemRow>)
        ensures
            r@.map_values(|it: ItemRow| it@) == self.model().items.filter(child_of(parent_id@)),
    {
        let ghost m = self.model().items;
        let n: usize = self.items.len();
        let mut out: Vec<ItemRow> = Vec::new();
        let mut i: usize = 0;
        while i < n
            invariant
                0 <= i <= n,
                n == m.len(),
                m == self.model().items,
                out@.map_values(|it: ItemRow| it@) == m.take(i as int).filter(child_of(parent_id@)),
            decreases n - i,
        {
            proof {
                assert(m[i as int] == self.items@[i as int]@);
                crate::strutil::lemma_filter_take_step(m, i as int, child_of(parent_id@));
            }
            let ghost old_out = out@;
            let hit = match &self.items[i].parent_id {
                Some(p) => crate::strutil::str_eq(p.as_str(), parent_id),
                None => false,
            };
            if hit {
                out.push(self.items[i].duplicate());
                proof {
                    assert(out@.map_values(|it: ItemRow| it@) =~= old_out.map_values(
                        |it: ItemRow| it@,
                    ).push(m[i as int]));
                    assert(m.take(i + 1 as int).filter(child_of(parent_id@)) =~= m.take(
                        i as int,
                    ).filter(child_of(parent_id@)).push(m[i as int]));
                }
            }
            i += 1;
        }
        proof {
            assert(m.take(n as int) =~= m);
        }
        out
    }
}

/// Top-level items of one library.
pub open spec fn top_of_library(library_id: Seq<char>) -> spec_fn(ItemModel) -> bool {
    |it: ItemModel| it.library_id == library_id && it.parent_id is None
}

/// Items under one parent.
pub open spec fn child_of(parent_id: Seq<char>) -> spec_fn(ItemModel) -> bool {
    |it: ItemModel| it.parent_id == Some(parent_id)
}

/// Provider rows belonging to one item.
pub open spec fn prov_of_item(item_id: Seq<char>) -> spec_fn(ProviderIdModel) -> bool {
    |p: ProviderIdModel| p.item_id == item_id
}

/// Lock rows belonging to one item.
pub open spec fn lock_of_item(item_id: Seq<char>) -> spec_fn(FieldLockModel) -> bool {
    |l: FieldLockModel| l.item_id == item_id
}


// ─── finders for libraries, users, settings, jobs ────────────────────────

pub open spec fn find_library_from(rows: Seq<LibraryModel>, i: int, id: Seq<char>) -> Option<int>
    decreases rows.len() - i,
{
    if i < 0 || i >= rows.len() {
        None
    } else if rows[i].id == id {
        Some(i)
    } else {
        find_library_from(rows, i + 1, id)
    }
}

pub open spec fn find_user_by_name_from(rows: Seq<UserModel>, i: int, username: Seq<char>) -> Option<int>
    decreases rows.len() - i,
{
    if i < 0 || i >= rows.len() {
        None
    } else if rows[i].username == username {
        Some(i)
    } else {
        find_user_by_name_from(rows, i + 1, username)
    }
}

pub proof fn lemma_find_user_name_props(rows: Seq<UserModel>, i: int, username: Seq<char>)
    requires
        0 <= i,
    ensures
        match find_user_by_name_from(rows, i, username) {
            Some(k) => i <= k < rows.len() && rows[k].username == username,
            None => forall|j: int| i <= j < rows.len() ==> (#[trigger] rows[j]).username != username,
        },
    decreases rows.len() - i,
{
    if i < rows.len() && rows[i].username != username {
        lemma_find_user_name_props(rows, i + 1, username);
    }
}

pub open spec fn find_user_by_id_from(rows: Seq<UserModel>, i: int, id: Seq<char>) -> Option<int>
    decreases rows.len() - i,
{
    if i < 0 || i >= rows.len() {
        None
    } else if rows[i].id == id {
        Some(i)
    } else {
        find_user_by_id_from(rows, i + 1, id)
    }
}

pub open spec fn find_setting_from(rows: Seq<(Seq<char>, Seq<char>)>, i: int, key: Seq<char>) -> Option<int>
    decreases rows.len() - i,
{
    if i < 0 || i >= rows.len() {
        None
    } else if rows[i].0 == key {
        Some(i)
    } else {
        find_setting_from(rows, i + 1, key)
    }
}

pub open spec fn find_job_from(rows: Seq<JobModel>, i: int, id: Seq<char>) -> Option<int>
    decreases rows.len() - i,
{
    if i < 0 || i >= rows.len() {
        None
    } else if rows[i].id == id {
        Some(i)
    } else {
        find_job_from(rows, i + 1, id)
    }
}

/// Library-path rows of one library.
pub open spec fn lp_of_library(library_id: Seq<char>) -> spec_fn(LibraryPathModel) -> bool {
    |p: LibraryPathModel| p.library_id == library_id
}

/// Library-path rows of every other library.
pub open spec fn lp_not_library(library_id: Seq<char>) -> spec_fn(LibraryPathModel) -> bool {
    |p: LibraryPathModel| p.library_id != library_id
}

/// The settings row of a library.
pub open spec fn find_lib_settings_from(
    rows: Seq<LibrarySettingsModel>,
    i: int,
    library_id: Seq<char>,
) -> Option<int>
    decreases rows.len() - i,
{
    if i < 0 || i >= rows.len() {
        None
    } else if rows[i].library_id == library_id {
        Some(i)
    } else {
        find_lib_settings_from(rows, i + 1, library_id)
    }
}

/// Filtering keeps every element's id in minted range.
proof fn lemma_filter_keeps_id_ok(
    rows: Seq<LibraryPathModel>,
    p: spec_fn(LibraryPathModel) -> bool,
    bound: nat,
    a: int,
)
    requires
        forall|i: int| 0 <= i < rows.len() ==> id_ok((#[trigger] rows[i]).id, bound),
        0 <= a < rows.filter(p).len(),
    ensures
        id_ok(rows.filter(p)[a].id, bound),
    decreases rows.len(),
{
    reveal(Seq::filter);
    if rows.len() > 0 {
        let d = rows.drop_last();
        let fd = d.filter(p);
        assert(forall|i: int| 0 <= i < d.len() ==> id_ok((#[trigger] d[i]).id, bound));
        if p(rows.last()) && a == rows.filter(p).len() - 1 {
            assert(rows.filter(p)[a] == rows.last());
        } else {
            assert(rows.filter(p)[a] == fd[a]);
            lemma_filter_keeps_id_ok(d, p, bound, a);
        }
    }
}

/// Items of one library.
pub open spec fn item_of_library(library_id: Seq<char>) -> spec_fn(ItemModel) -> bool {
    |it: ItemModel| it.library_id == library_id
}

/// Access pairs of one user.
pub open spec fn access_of_user(user_id: Seq<char>) -> spec_fn((Seq<char>, Seq<char>)) -> bool {
    |p: (Seq<char>, Seq<char>)| p.0 == user_id
}

// ─── password hashing, through the outside hasher ────────────────────────

/// What the password hasher verifies: whether `password` matches the salted
/// PHC-format `hash`. A function of its two arguments.
pub uninterp spec fn argon2_verifies(password: Seq<char>, hash: Seq<char>) -> bool;

/// Relies on `argon2::PasswordHasher::hash_password` and its round trip
/// with `PasswordVerifier::verify_password`: the salted PHC-format text it
/// returns verifies the password it was made from (the salt and parameters
/// ride inside the text). The salt is drawn at random, so nothing further
/// is claimed of the text beyond being non-empty; hashing fails only on
/// length-limit or randomness errors, which the caller surfaces.
#[verifier::external_body]
fn argon2_hash_password(password: &str) -> (r: Option<String>)
    ensures
        match r {
            Some(h) => h@.len() > 0 && argon2_verifies(password@, h@),
            None => true,
        },
{
    match argon2::PasswordHasher::hash_password(&argon2::Argon2::default(), password.as_bytes()) {
        Ok(h) => {
            let text = h.to_string();
            if text.is_empty() {
                None
            } else {
                Some(text)
            }
        },
        Err(_) => None,
    }
}

/// Relies on `argon2::PasswordVerifier::verify_password`: deterministic in
/// the password and the hash text; an unparsable hash verifies nothing.
#[verifier::external_body]
pub fn verify_password(password: &str, hash: &str) -> (r: bool)
    ensures
        r == argon2_verifies(password@, hash@),
{
    argon2::PasswordVerifier::verify_password(
        &argon2::Argon2::default(),
        password.as_bytes(),
        hash,
    ).is_ok()
}

impl Store {
    // ─── libraries ─────────────────────────────────────────────────────────

    /// Create a library with its paths and default settings, as one write.
    pub fn create_library(
        &mut self,
        name: &str,
        kind: LibraryKind,
        paths: &Vec<String>,
        now_ts: i64,
    ) -> (r: Result<String, StoreError>)
        requires
            old(self).inv(),
        ensures
            final(self).inv(),
            ({
                let m0 = old(self).model();
                let m1 = final(self).model();
                match r {
                    Ok(id) => {
                        &&& id@ == dec_str(m0.next_id)
                        &&& m1.libraries == m0.libraries.push(
                            LibraryModel {
                                id: dec_str(m0.next_id),
                                name: name@,
                                kind,
                                created_ts: now_ts,
                                updated_ts: now_ts,
                            },
                        )
                        &&& m1.library_paths.len() == m0.library_paths.len() + paths@.len()
                        &&& forall|k: int|
                            0 <= k < paths@.len() ==> {
                                let row = #[trigger] m1.library_paths[m0.library_paths.len() + k];
                                row.library_id == dec_str(m0.next_id) && row.path == paths@[k]@
                                    && !row.is_read_only
                            }
                        &&& forall|k: int|
                            0 <= k < m0.library_paths.len() ==> #[trigger] m1.library_paths[k]
                                == m0.library_paths[k]
                        &&& m1.library_settings == m0.library_settings.push(
                            LibrarySettingsModel {
                                library_id: dec_str(m0.next_id),
                                show_images: true,
                                prefer_local_artwork: true,
                                fetch_online_artwork: true,
                            },
                        )
                        &&& m1.items == m0.items
                        &&& m1.media_files == m0.media_files
                        &&& m1.file_maps == m0.file_maps
                        &&& m1.provider_ids == m0.provider_ids
                        &&& m1.field_locks == m0.field_locks
                        &&& m1.play_states == m0.play_states
                        &&& m1.users == m0.users
                        &&& m1.user_access == m0.user_access
                        &&& m1.settings == m0.settings
                        &&& m1.jobs == m0.jobs
                    },
                    Err(e) => {
                        &&& e == StoreError::Full
                        &&& final(self).model().next_id == u64::MAX
                        // what stood before the failure stands still: the
                        // library row and path rows already written remain
                        &&& m1.libraries == m0.libraries || m1.libraries == m0.libraries.push(
                            LibraryModel {
                                id: dec_str(m0.next_id),
                                name: name@,
                                kind,
                                created_ts: now_ts,
                                updated_ts: now_ts,
                            },
                        )
                        &&& m1.library_paths.len() >= m0.library_paths.len()
                        &&& forall|k: int|
                            0 <= k < m0.library_paths.len() ==> #[trigger] m1.library_paths[k]
                                == m0.library_paths[k]
                        &&& m1.library_settings == m0.library_settings
                        &&& m1.items == m0.items
                        &&& m1.media_files == m0.media_files
                        &&& m1.file_maps == m0.file_maps
                        &&& m1.provider_ids == m0.provider_ids
                        &&& m1.field_locks == m0.field_locks
                        &&& m1.play_states == m0.play_states
                        &&& m1.users == m0.users
                        &&& m1.user_access == m0.user_access
                        &&& m1.settings == m0.settings
                        &&& m1.jobs == m0.jobs
                    },
                    _ => false,
                }
            }),
    {
        let ghost m0 = self.model();
        let lib_id = match self.mint_id() {
            Ok(id) => id,
            Err(e) => {
                return Err(e);
            },
        };
        let lib_row = LibraryRow {
            id: lib_id.clone(),
            name: String::from_str(name),
            kind,
            created_ts: now_ts,
            updated_ts: now_ts,
        };
        let ghost glib = lib_row@;
        self.libraries.push(lib_row);
        proof {
            let m1 = self.model();
            assert(m1.libraries =~= m0.libraries.push(glib));
            assert(m1 == StoreModel { next_id: m0.next_id + 1, libraries: m1.libraries, ..m0 });
            lemma_inv_bump(m0, StoreModel { next_id: m0.next_id + 1, ..m0 });
            assert forall|a: int, b: int|
                0 <= a < b < m1.libraries.len() implies (#[trigger] m1.libraries[a]).id != (
            #[trigger] m1.libraries[b]).id by {
                if b == m1.libraries.len() - 1 {
                    lemma_id_fresh(m0.libraries[a].id, m0.next_id);
                }
            }
            assert forall|a: int| 0 <= a < m1.libraries.len() implies id_ok(
                (#[trigger] m1.libraries[a]).id,
                m1.next_id,
            ) by {
                if a < m1.libraries.len() - 1 {
                    lemma_id_ok_monotone(m0.libraries[a].id, m0.next_id, m1.next_id);
                } else {
                    assert(m1.libraries[a].id == dec_str(m0.next_id));
                }
            }
        }
        let ghost mlib = self.model();
        let np: usize = paths.len();
        let mut pi: usize = 0;
        while pi < np
            invariant
                self.inv(),
                0 <= pi <= np,
                np == paths@.len(),
                lib_id@ == dec_str(m0.next_id),
                m0 == old(self).model(),
                mlib == (StoreModel {
                    next_id: m0.next_id + 1,
                    libraries: m0.libraries.push(
                        LibraryModel {
                            id: dec_str(m0.next_id),
                            name: name@,
                            kind,
                            created_ts: now_ts,
                            updated_ts: now_ts,
                        },
                    ),
                    ..m0
                }),
                self.model().library_paths.len() == mlib.library_paths.len() + pi,
                forall|k: int|
                    0 <= k < pi ==> {
                        let row = #[trigger] self.model().library_paths[mlib.library_paths.len()
                            + k];
                        row.library_id == lib_id@ && row.path == paths@[k]@ && !row.is_read_only
                    },
                forall|k: int|
                    0 <= k < mlib.library_paths.len() ==> #[trigger] self.model().library_paths[k]
                        == mlib.library_paths[k],
                self.model() == (StoreModel {
                    next_id: self.model().next_id,
                    library_paths: self.model().library_paths,
                    ..mlib
                }),
                self.model().next_id >= mlib.next_id,
            decreases np - pi,
        {
            let ghost mcur = self.model();
            let path_id = match self.mint_id() {
                Ok(id) => id,
                Err(e) => {
                    return Err(e);
                },
            };
            let prow = LibraryPathRow {
                id: path_id,
                library_id: lib_id.clone(),
                path: paths[pi].clone(),
                is_read_only: false,
            };
            let ghost gprow = prow@;
            self.library_paths.push(prow);
            proof {
                let m2 = self.model();
                assert(m2.library_paths =~= mcur.library_paths.push(gprow));
                assert(m2 == StoreModel {
                    next_id: mcur.next_id + 1,
                    library_paths: m2.library_paths,
                    ..mcur
                });
                lemma_inv_bump(mcur, StoreModel { next_id: mcur.next_id + 1, ..mcur });
                assert forall|a: int| 0 <= a < m2.library_paths.len() implies id_ok(
                    (#[trigger] m2.library_paths[a]).id,
                    m2.next_id,
                ) by {
                    if a < m2.library_paths.len() - 1 {
                        lemma_id_ok_monotone(mcur.library_paths[a].id, mcur.next_id, m2.next_id);
                    } else {
                        assert(m2.library_paths[a].id == dec_str(mcur.next_id));
                    }
                }
                assert(m2 == StoreModel {
                    next_id: m2.next_id,
                    library_paths: m2.library_paths,
                    ..mlib
                });
                assert forall|k: int|
                    0 <= k < pi + 1 implies {
                    let row = #[trigger] m2.library_paths[mlib.library_paths.len() + k];
                    row.library_id == lib_id@ && row.path == paths@[k]@ && !row.is_read_only
                } by {
                    if k < pi as int {
                        assert(m2.library_paths[mlib.library_paths.len() + k]
                            == mcur.library_paths[mlib.library_paths.len() + k]);
                    } else {
                        assert(m2.library_paths[mlib.library_paths.len() + k] == gprow);
                    }
                }
            }
            pi += 1;
        }
        let srow = LibrarySettingsRow {
            library_id: lib_id.clone(),
            show_images: true,
            prefer_local_artwork: true,
            fetch_online_artwork: true,
        };
        let ghost gsrow = srow@;
        let ghost mps = self.model();
        self.library_settings.push(srow);
        proof {
            let m3 = self.model();
            assert(m3.library_settings =~= mps.library_settings.push(gsrow));
            assert(m3 == StoreModel { library_settings: m3.library_settings, ..mps });
            assert(m3.libraries == m0.libraries.push(glib));
            assert(m3.library_settings == m0.library_settings.push(gsrow));
            assert(m3.items == m0.items && m3.media_files == m0.media_files && m3.file_maps
                == m0.file_maps && m3.provider_ids == m0.provider_ids && m3.field_locks
                == m0.field_locks && m3.play_states == m0.play_states && m3.users == m0.users
                && m3.user_access == m0.user_access && m3.settings == m0.settings && m3.jobs
                == m0.jobs);
            assert(m3.library_paths.len() == m0.library_paths.len() + paths@.len());
        }
        Ok(lib_id)
    }

    /// Fetch a library by id.
    pub fn get_library(&self, library_id: &str) -> (r: Option<LibraryRow>)
        ensures
            match (r, find_library_from(self.model().libraries, 0, library_id@)) {
                (Some(row), Some(k)) => row@ == self.model().libraries[k],
                (None, None) => true,
                _ => false,
            },
    {
        let n: usize = self.libraries.len();
        let mut i: usize = 0;
        while i < n
            invariant
                0 <= i <= n,
                n == self.model().libraries.len(),
                find_library_from(self.model().libraries, 0, library_id@) == find_library_from(
                    self.model().libraries,
                    i as int,
                    library_id@,
                ),
            decreases n - i,
        {
            proof {
                assert(self.model().libraries[i as int] == self.libraries@[i as int]@);
            }
            if crate::strutil::str_eq(self.libraries[i].id.as_str(), library_id) {
                let l = &self.libraries[i];
                return Some(
                    LibraryRow {
                        id: l.id.clone(),
                        name: l.name.clone(),
                        kind: l.kind,
                        created_ts: l.created_ts,
                        updated_ts: l.updated_ts,
                    },
                );
            }
            i += 1;
        }
        None
    }

    /// All libraries, in creation order.
    pub fn list_libraries(&self) -> (r: Vec<LibraryRow>)
        ensures
            r@.map_values(|l: LibraryRow| l@) == self.model().libraries,
    {
        let n: usize = self.libraries.len();
        let mut out: Vec<LibraryRow> = Vec::new();
        let mut i: usize = 0;
        while i < n
            invariant
                0 <= i <= n,
                n == self.model().libraries.len(),
                out@.len() == i,
                forall|j: int|
                    0 <= j < i ==> (#[trigger] out@[j])@ == self.model().libraries[j],
            decreases n - i,
        {
            proof {
                assert(self.model().libraries[i as int] == self.libraries@[i as int]@);
            }
            let l = &self.libraries[i];
            out.push(
                LibraryRow {
                    id: l.id.clone(),
                    name: l.name.clone(),
                    kind: l.kind,
                    created_ts: l.created_ts,
                    updated_ts: l.updated_ts,
                },
            );
            i += 1;
        }
        proof {
            assert(out@.map_values(|l: LibraryRow| l@) =~= self.model().libraries);
        }
        out
    }

    /// The path rows of one library.
    pub fn get_library_paths(&self, library_id: &str) -> (r: Vec<LibraryPathRow>)
        ensures
            r@.map_values(|p: LibraryPathRow| p@) == self.model().library_paths.filter(
                lp_of_library(library_id@),
            ),
    {
        let ghost m = self.model().library_paths;
        let n: usize = self.library_paths.len();
        let mut out: Vec<LibraryPathRow> = Vec::new();
        let mut i: usize = 0;
        while i < n
            invariant
                0 <= i <= n,
                n == m.len(),
                m == self.model().library_paths,
                out@.map_values(|p: LibraryPathRow| p@) == m.take(i as int).filter(
                    lp_of_library(library_id@),
                ),
            decreases n - i,
        {
            proof {
                assert(m[i as int] == self.library_paths@[i as int]@);
                crate::strutil::lemma_filter_take_step(m, i as int, lp_of_library(library_id@));
            }
            let ghost old_out = out@;
            if crate::strutil::str_eq(self.library_paths[i].library_id.as_str(), library_id) {
                let p = &self.library_paths[i];
                out.push(
                    LibraryPathRow {
                        id: p.id.clone(),
                        library_id: p.library_id.clone(),
                        path: p.path.clone(),
                        is_read_only: p.is_read_only,
                    },
                );
                proof {
                    assert(out@.map_values(|p: LibraryPathRow| p@) =~= old_out.map_values(
                        |p: LibraryPathRow| p@,
                    ).push(m[i as int]));
                    assert(m.take(i + 1 as int).filter(lp_of_library(library_id@)) =~= m.take(
                        i as int,
                    ).filter(lp_of_library(library_id@)).push(m[i as int]));
                }
            }
            i += 1;
        }
        proof {
            assert(m.take(n as int) =~= m);
        }
        out
    }

    /// Every configured library path, across libraries.
    pub fn get_all_library_paths(&self) -> (r: Vec<String>)
        ensures
            r@.map_values(|p: String| p@) == self.model().library_paths.map_values(
                |p: LibraryPathModel| p.path,
            ),
    {
        let n: usize = self.library_paths.len();
        let mut out: Vec<String> = Vec::new();
        let mut i: usize = 0;
        while i < n
            invariant
                0 <= i <= n,
                n == self.model().library_paths.len(),
                out@.len() == i,
                forall|j: int|
                    0 <= j < i ==> (#[trigger] out@[j])@ == self.model().library_paths[j].path,
            decreases n - i,
        {
            proof {
                assert(self.model().library_paths[i as int] == self.library_paths@[i as int]@);
            }
            out.push(self.library_paths[i].path.clone());
            i += 1;
        }
        proof {
            assert(out@.map_values(|p: String| p@) =~= self.model().library_paths.map_values(
                |p: LibraryPathModel| p.path,
            ));
        }
        out
    }

    /// How many items a library holds.
    pub fn count_library_items(&self, library_id: &str) -> (r: usize)
        ensures
            r == self.model().items.filter(item_of_library(library_id@)).len(),
    {
        let ghost m = self.model().items;
        let n: usize = self.items.len();
        let mut count: usize = 0;
        let mut i: usize = 0;
        while i < n
            invariant
                0 <= i <= n,
                n == m.len(),
                m == self.model().items,
                count == m.take(i as int).filter(item_of_library(library_id@)).len(),
                count <= i,
            decreases n - i,
        {
            proof {
                assert(m[i as int] == self.items@[i as int]@);
                crate::strutil::lemma_filter_take_step(m, i as int, item_of_library(library_id@));
            }
            if crate::strutil::str_eq(self.items[i].library_id.as_str(), library_id) {
                count += 1;
            }
            i += 1;
        }
        proof {
            assert(m.take(n as int) =~= m);
        }
        count
    }

    /// Replace a library's path rows with the given set, as one write.
    pub fn replace_library_paths(&mut self, library_id: &str, paths: &Vec<String>) -> (r: Result<
        (),
        StoreError,
    >)
        requires
            old(self).inv(),
        ensures
            final(self).inv(),
            ({
                let kept = old(self).model().library_paths.filter(lp_not_library(library_id@));
                match r {
                    Ok(_) => {
                        &&& final(self).model().library_paths.len() == kept.len() + paths@.len()
                        &&& forall|k: int|
                            0 <= k < kept.len() ==> #[trigger] final(self).model().library_paths[k]
                                == kept[k]
                        &&& forall|k: int|
                            0 <= k < paths@.len() ==> {
                                let row = #[trigger] final(self).model().library_paths[kept.len()
                                    + k];
                                row.library_id == library_id@ && row.path == paths@[k]@
                                    && !row.is_read_only
                            }
                        &&& final(self).model() == (StoreModel {
                            next_id: final(self).model().next_id,
                            library_paths: final(self).model().library_paths,
                            ..old(self).model()
                        })
                    },
                    Err(e) => {
                        &&& e == StoreError::Full
                        &&& final(self).model().next_id == u64::MAX
                        // the rewrite stands as far as it got: the other
                        // libraries' rows, then this library's new rows in
                        // order up to the failure
                        &&& kept.len() <= final(self).model().library_paths.len() <= kept.len()
                            + paths@.len()
                        &&& forall|k: int|
                            0 <= k < final(self).model().library_paths.len() - kept.len() ==> {
                                let row = #[trigger] final(self).model().library_paths[kept.len() + k];
                                row.library_id == library_id@ && row.path == paths@[k]@
                                    && !row.is_read_only
                            }
                        &&& forall|k: int|
                            0 <= k < kept.len() ==> #[trigger] final(self).model().library_paths[k]
                                == kept[k]
                        &&& final(self).model() == (StoreModel {
                            next_id: final(self).model().next_id,
                            library_paths: final(self).model().library_paths,
                            ..old(self).model()
                        })
                    },
                    _ => false,
                }
            }),
    {
        let ghost m0 = self.model();
        let n: usize = self.library_paths.len();
        let mut kept: Vec<LibraryPathRow> = Vec::new();
        let mut i: usize = 0;
        while i < n
            invariant
                0 <= i <= n,
                n == self.model().library_paths.len(),
                self.model() == m0,
                old(self).inv(),
                m0 == old(self).model(),
                kept@.map_values(|p: LibraryPathRow| p@) == m0.library_paths.take(i as int).filter(
                    lp_not_library(library_id@),
                ),
            decreases n - i,
        {
            proof {
                assert(m0.library_paths[i as int] == self.library_paths@[i as int]@);
                crate::strutil::lemma_filter_take_step(
                    m0.library_paths,
                    i as int,
                    lp_not_library(library_id@),
                );
            }
            let ghost old_kept = kept@;
            if !crate::strutil::str_eq(self.library_paths[i].library_id.as_str(), library_id) {
                let p = &self.library_paths[i];
                kept.push(
                    LibraryPathRow {
                        id: p.id.clone(),
                        library_id: p.library_id.clone(),
                        path: p.path.clone(),
                        is_read_only: p.is_read_only,
                    },
                );
                proof {
                    assert(kept@.map_values(|p: LibraryPathRow| p@) =~= old_kept.map_values(
                        |p: LibraryPathRow| p@,
                    ).push(m0.library_paths[i as int]));
                    assert(m0.library_paths.take(i + 1 as int).filter(lp_not_library(library_id@))
                        =~= m0.library_paths.take(i as int).filter(
                        lp_not_library(library_id@),
                    ).push(m0.library_paths[i as int]));
                }
            }
            i += 1;
        }
        proof {
            assert(m0.library_paths.take(n as int) =~= m0.library_paths);
        }
        self.library_paths = kept;
        proof {
            let m1 = self.model();
            assert(m1 == StoreModel { library_paths: m1.library_paths, ..m0 });
            assert forall|a: int| 0 <= a < m1.library_paths.len() implies id_ok(
                (#[trigger] m1.library_paths[a]).id,
                m1.next_id,
            ) by {
                lemma_filter_keeps_id_ok(m0.library_paths, lp_not_library(library_id@), m0.next_id, a);
            }
        }
        let ghost mkept = self.model();
        let np: usize = paths.len();
        let mut pi: usize = 0;
        while pi < np
            invariant
                0 <= pi <= np,
                np == paths@.len(),
                self.inv(),
                m0 == old(self).model(),
                mkept.library_paths == m0.library_paths.filter(lp_not_library(library_id@)),
                mkept == (StoreModel {
                    next_id: mkept.next_id,
                    library_paths: mkept.library_paths,
                    ..m0
                }),
                self.model().library_paths.len() == mkept.library_paths.len() + pi,
                forall|k: int|
                    0 <= k < mkept.library_paths.len() ==> #[trigger] self.model().library_paths[k]
                        == mkept.library_paths[k],
                forall|k: int|
                    0 <= k < pi ==> {
                        let row = #[trigger] self.model().library_paths[mkept.library_paths.len()
                            + k];
                        row.library_id == library_id@ && row.path == paths@[k]@
                            && !row.is_read_only
                    },
                self.model() == (StoreModel {
                    next_id: self.model().next_id,
                    library_paths: self.model().library_paths,
                    ..mkept
                }),
                self.model().next_id >= mkept.next_id,
            decreases np - pi,
        {
            let ghost mcur = self.model();
            let path_id = match self.mint_id() {
                Ok(id) => id,
                Err(e) => {
                    return Err(e);
                },
            };
            let prow = LibraryPathRow {
                id: path_id,
                library_id: String::from_str(library_id),
                path: paths[pi].clone(),
                is_read_only: false,
            };
            let ghost gprow = prow@;
            self.library_paths.push(prow);
            proof {
                let m2 = self.model();
                assert(m2.library_paths =~= mcur.library_paths.push(gprow));
                assert(m2 == StoreModel {
                    next_id: mcur.next_id + 1,
                    library_paths: m2.library_paths,
                    ..mcur
                });
                lemma_inv_bump(mcur, StoreModel { next_id: mcur.next_id + 1, ..mcur });
                assert forall|a: int| 0 <= a < m2.library_paths.len() implies id_ok(
                    (#[trigger] m2.library_paths[a]).id,
                    m2.next_id,
                ) by {
                    if a < m2.library_paths.len() - 1 {
                        lemma_id_ok_monotone(mcur.library_paths[a].id, mcur.next_id, m2.next_id);
                    } else {
                        assert(m2.library_paths[a].id == dec_str(mcur.next_id));
                    }
                }
                assert(m2 == StoreModel {
                    next_id: m2.next_id,
                    library_paths: m2.library_paths,
                    ..mkept
                });
                assert forall|k: int|
                    0 <= k < pi + 1 implies {
                    let row = #[trigger] m2.library_paths[mkept.library_paths.len() + k];
                    row.library_id == library_id@ && row.path == paths@[k]@ && !row.is_read_only
                } by {
                    if k < pi as int {
                        assert(m2.library_paths[mkept.library_paths.len() + k]
                            == mcur.library_paths[mkept.library_paths.len() + k]);
                    } else {
                        assert(m2.library_paths[mkept.library_paths.len() + k] == gprow);
                    }
                }
            }
            pi += 1;
        }
        Ok(())
    }

    /// Fetch a library's settings row, if written.
    pub fn get_library_settings(&self, library_id: &str) -> (r: Option<LibrarySettingsRow>)
        ensures
            match (r, find_lib_settings_from(self.model().library_settings, 0, library_id@)) {
                (Some(row), Some(k)) => row@ == self.model().library_settings[k],
                (None, None) => true,
                _ => false,
            },
    {
        let n: usize = self.library_settings.len();
        let mut i: usize = 0;
        while i < n
            invariant
                0 <= i <= n,
                n == self.model().library_settings.len(),
                find_lib_settings_from(self.model().library_settings, 0, library_id@)
                    == find_lib_settings_from(
                    self.model().library_settings,
                    i as int,
                    library_id@,
                ),
            decreases n - i,
        {
            proof {
                assert(self.model().library_settings[i as int]
                    == self.library_settings@[i as int]@);
            }
            if crate::strutil::str_eq(self.library_settings[i].library_id.as_str(), library_id) {
                let s = &self.library_settings[i];
                return Some(
                    LibrarySettingsRow {
                        library_id: s.library_id.clone(),
                        show_images: s.show_images,
                        prefer_local_artwork: s.prefer_local_artwork,
                        fetch_online_artwork: s.fetch_online_artwork,
                    },
                );
            }
            i += 1;
        }
        None
    }

    /// Write a library's settings with conflict-update semantics.
    pub fn upsert_library_settings(
        &mut self,
        library_id: &str,
        show_images: bool,
        prefer_local_artwork: bool,
        fetch_online_artwork: bool,
    )
        requires
            old(self).inv(),
        ensures
            final(self).inv(),
            final(self).model() == (StoreModel {
                library_settings: ({
                    let row = LibrarySettingsModel {
                        library_id: library_id@,
                        show_images,
                        prefer_local_artwork,
                        fetch_online_artwork,
                    };
                    match find_lib_settings_from(
                        old(self).model().library_settings,
                        0,
                        library_id@,
                    ) {
                        Some(k) => old(self).model().library_settings.update(k, row),
                        None => old(self).model().library_settings.push(row),
                    }
                }),
                ..old(self).model()
            }),
    {
        let ghost m0 = self.model();
        let n: usize = self.library_settings.len();
        let mut i: usize = 0;
        while i < n
            invariant
                0 <= i <= n,
                n == self.model().library_settings.len(),
                self.model() == m0,
                old(self).inv(),
                m0 == old(self).model(),
                find_lib_settings_from(m0.library_settings, 0, library_id@)
                    == find_lib_settings_from(m0.library_settings, i as int, library_id@),
            decreases n - i,
        {
            proof {
                assert(self.model().library_settings[i as int]
                    == self.library_settings@[i as int]@);
            }
            if crate::strutil::str_eq(self.library_settings[i].library_id.as_str(), library_id) {
                let row = LibrarySettingsRow {
                    library_id: String::from_str(library_id),
                    show_images,
                    prefer_local_artwork,
                    fetch_online_artwork,
                };
                let ghost grow = row@;
                self.library_settings.set(i, row);
                proof {
                    let m1 = self.model();
                    assert(m1.library_settings =~= m0.library_settings.update(i as int, grow));
                    assert(m1 == StoreModel { library_settings: m1.library_settings, ..m0 });
                }
                return ;
            }
            i += 1;
        }
        let row = LibrarySettingsRow {
            library_id: String::from_str(library_id),
            show_images,
            prefer_local_artwork,
            fetch_online_artwork,
        };
        let ghost grow = row@;
        self.library_settings.push(row);
        proof {
            let m1 = self.model();
            assert(m1.library_settings =~= m0.library_settings.push(grow));
            assert(m1 == StoreModel { library_settings: m1.library_settings, ..m0 });
        }
    }

    /// Rename a library; a missing name is a no-op reported `false`.
    pub fn update_library(&mut self, library_id: &str, name: Option<&str>, now_ts: i64) -> (r:
        bool)
        requires
            old(self).inv(),
        ensures
            final(self).inv(),
            ({
                let m0 = old(self).model();
                match (name, find_library_from(m0.libraries, 0, library_id@)) {
                    (Some(n), Some(k)) => r && final(self).model() == (StoreModel {
                        libraries: m0.libraries.update(
                            k,
                            LibraryModel { name: n@, updated_ts: now_ts, ..m0.libraries[k] },
                        ),
                        ..m0
                    }),
                    _ => !r && final(self).model() == m0,
                }
            }),
    {
        let ghost m0 = self.model();
        let new_name = match name {
            Some(n) => n,
            None => {
                return false;
            },
        };
        let n: usize = self.libraries.len();
        let mut i: usize = 0;
        while i < n
            invariant
                0 <= i <= n,
                n == self.model().libraries.len(),
                self.model() == m0,
                old(self).inv(),
                m0 == old(self).model(),
                name is Some,
                new_name@ == name->Some_0@,
                find_library_from(m0.libraries, 0, library_id@) == find_library_from(
                    m0.libraries,
                    i as int,
                    library_id@,
                ),
            decreases n - i,
        {
            proof {
                assert(self.model().libraries[i as int] == self.libraries@[i as int]@);
            }
            if crate::strutil::str_eq(self.libraries[i].id.as_str(), library_id) {
                let l = &self.libraries[i];
                let row = LibraryRow {
                    id: l.id.clone(),
                    name: String::from_str(new_name),
                    kind: l.kind,
                    created_ts: l.created_ts,
                    updated_ts: now_ts,
                };
                let ghost grow = row@;
                self.libraries.set(i, row);
                proof {
                    let m1 = self.model();
                    assert(m1.libraries =~= m0.libraries.update(i as int, grow));
                    assert(m1 == StoreModel { libraries: m1.libraries, ..m0 });
                    assert(find_library_from(m0.libraries, 0, library_id@) == Some(i as int));
                    assert(grow == LibraryModel {
                        name: new_name@,
                        updated_ts: now_ts,
                        ..m0.libraries[i as int]
                    });
                    assert(grow == LibraryModel {
                        name: (name->Some_0)@,
                        updated_ts: now_ts,
                        ..m0.libraries[i as int]
                    });
                    assert forall|a: int, b: int|
                        0 <= a < b < m1.libraries.len() implies (#[trigger] m1.libraries[a]).id
                        != (#[trigger] m1.libraries[b]).id by {
                        assert(m1.libraries[a].id == m0.libraries[a].id);
                        assert(m1.libraries[b].id == m0.libraries[b].id);
                    }
                    assert forall|a: int| 0 <= a < m1.libraries.len() implies id_ok(
                        (#[trigger] m1.libraries[a]).id,
                        m1.next_id,
                    ) by {
                        assert(m1.libraries[a].id == m0.libraries[a].id);
                    }
                }
                return true;
            }
            i += 1;
        }
        false
    }

    /// Set an item's artwork URLs, as the merge's write-back does.
    pub fn update_item_artwork(
        &mut self,
        item_id: &str,
        poster_url: Option<&str>,
        backdrop_url: Option<&str>,
        logo_url: Option<&str>,
        thumb_url: Option<&str>,
        now_ts: i64,
    ) -> (r: bool)
        requires
            old(self).inv(),
        ensures
            final(self).inv(),
            ({
                let m0 = old(self).model();
                match find_item_by_id(m0.items, item_id@) {
                    Some(k) => r && final(self).model() == (StoreModel {
                        items: m0.items.update(
                            k,
                            ItemModel {
                                poster_url: opt_ref_view(poster_url),
                                backdrop_url: opt_ref_view(backdrop_url),
                                logo_url: opt_ref_view(logo_url),
                                thumb_url: opt_ref_view(thumb_url),
                                updated_ts: now_ts,
                                ..m0.items[k]
                            },
                        ),
                        ..m0
                    }),
                    None => !r && final(self).model() == m0,
                }
            }),
    {
        let ghost m0 = self.model();
        let pos = match self.position_item_by_id(item_id) {
            Some(i) => i,
            None => {
                return false;
            },
        };
        let it = &self.items[pos];
        let row = ItemRow {
            id: it.id.clone(),
            library_id: it.library_id.clone(),
            kind: it.kind,
            parent_id: clone_opt(&it.parent_id),
            title: it.title.clone(),
            sort_title: clone_opt(&it.sort_title),
            year: it.year,
            overview: clone_opt(&it.overview),
            poster_url: copy_opt_ref(poster_url),
            backdrop_url: copy_opt_ref(backdrop_url),
            logo_url: copy_opt_ref(logo_url),
            thumb_url: copy_opt_ref(thumb_url),
            created_ts: it.created_ts,
            updated_ts: now_ts,
        };
        let ghost grow = row@;
        self.items.set(pos, row);
        proof {
            let m1 = self.model();
            assert(m1.items =~= m0.items.update(pos as int, grow));
            assert(m1 == StoreModel { items: m1.items, ..m0 });
            assert(grow == ItemModel {
                poster_url: opt_ref_view(poster_url),
                backdrop_url: opt_ref_view(backdrop_url),
                logo_url: opt_ref_view(logo_url),
                thumb_url: opt_ref_view(thumb_url),
                updated_ts: now_ts,
                ..m0.items[pos as int]
            });
            // the update keeps ids, keys, parents and the hierarchy intact
            assert forall|a: int, b: int|
                0 <= a < b < m1.items.len() implies (#[trigger] m1.items[a]).id != (
            #[trigger] m1.items[b]).id by {
                assert(m1.items[a].id == m0.items[a].id);
                assert(m1.items[b].id == m0.items[b].id);
            }
            assert forall|a: int, b: int|
                0 <= a < b < m1.items.len() implies !(item_key_matches(
                #[trigger] m1.items[a],
                m1.items[b].library_id,
                m1.items[b].kind,
                m1.items[b].parent_id,
                #[trigger] m1.items[b].title,
            )) by {
                assert(m1.items[a].library_id == m0.items[a].library_id && m1.items[a].kind
                    == m0.items[a].kind && m1.items[a].parent_id == m0.items[a].parent_id
                    && m1.items[a].title == m0.items[a].title);
                assert(m1.items[b].library_id == m0.items[b].library_id && m1.items[b].kind
                    == m0.items[b].kind && m1.items[b].parent_id == m0.items[b].parent_id
                    && m1.items[b].title == m0.items[b].title);
            }
            assert forall|a: int|
                0 <= a < m1.items.len() implies parent_ok(
                m1.items,
                (#[trigger] m1.items[a]).library_id,
                m1.items[a].kind,
                m1.items[a].parent_id,
            ) by {
                assert(parent_ok(
                    m0.items,
                    m0.items[a].library_id,
                    m0.items[a].kind,
                    m0.items[a].parent_id,
                ));
                match m0.items[a].kind {
                    ItemKind::Season | ItemKind::Episode => {
                        let p = m0.items[a].parent_id->Some_0;
                        let w = choose|w: int|
                            0 <= w < m0.items.len() && (#[trigger] m0.items[w]).id == p && (
                            m0.items[w].kind == ItemKind::Series || m0.items[w].kind
                                == ItemKind::Season) && m0.items[w].library_id
                                == m0.items[a].library_id;
                        assert(m1.items[w].id == m0.items[w].id && m1.items[w].kind
                            == m0.items[w].kind && m1.items[w].library_id
                            == m0.items[w].library_id);
                        assert(m1.items[a].library_id == m0.items[a].library_id
                            && m1.items[a].kind == m0.items[a].kind && m1.items[a].parent_id
                            == m0.items[a].parent_id);
                    },
                    _ => {
                        assert(m1.items[a].kind == m0.items[a].kind && m1.items[a].parent_id
                            == m0.items[a].parent_id);
                    },
                }
            }
            assert forall|a: int| 0 <= a < m1.items.len() implies id_ok(
                (#[trigger] m1.items[a]).id,
                m1.next_id,
            ) by {
                assert(m1.items[a].id == m0.items[a].id);
            }
        }
        true
    }

    /// Delete a library and cascade: its paths, settings and items go, and
    /// with the items their file links, provider IDs, field locks and play
    /// state; users' access to the library is withdrawn. Media-file rows
    /// stay (files are shared by reference). Reported `false` when no such
    /// library exists, with nothing changed.
    #[verifier::rlimit(100)]
    pub fn delete_library(&mut self, library_id: &str) -> (r: bool)
        requires
            old(self).inv(),
        ensures
            final(self).inv(),
            ({
                let m0 = old(self).model();
                if find_library_from(m0.libraries, 0, library_id@) is Some {
                    r && final(self).model() == (StoreModel {
                        libraries: m0.libraries.filter(lib_other(library_id@)),
                        library_paths: m0.library_paths.filter(lp_not_library(library_id@)),
                        library_settings: m0.library_settings.filter(ls_other(library_id@)),
                        items: m0.items.filter(item_other_library(library_id@)),
                        file_maps: m0.file_maps.filter(map_outside_library(m0.items, library_id@)),
                        provider_ids: m0.provider_ids.filter(
                            prov_outside_library(m0.items, library_id@),
                        ),
                        field_locks: m0.field_locks.filter(
                            lock_outside_library(m0.items, library_id@),
                        ),
                        play_states: m0.play_states.filter(
                            play_outside_library(m0.items, library_id@),
                        ),
                        user_access: m0.user_access.filter(access_other_library(library_id@)),
                        ..m0
                    })
                } else {
                    !r && final(self).model() == m0
                }
            }),
    {
        let ghost m0 = self.model();
        // the library must exist
        if self.get_library(library_id).is_none() {
            proof {
                assert(m0 == StoreModel { libraries: m0.libraries, ..m0 });
            }
            return false;
        }
        // drop the item-owned rows of this library's items first, while the
        // item table still shows which items belong to it
        let ghost gitems = m0.items;
        let nm: usize = self.file_maps.len();
        let mut kept_maps: Vec<FileMapRow> = Vec::new();
        let mut i: usize = 0;
        while i < nm
            invariant
                0 <= i <= nm,
                nm == self.model().file_maps.len(),
                self.model() == m0,
                old(self).inv(),
                m0 == old(self).model(),
                gitems == m0.items,
                kept_maps@.map_values(|x: FileMapRow| x@) == m0.file_maps.take(i as int).filter(
                    map_outside_library(gitems, library_id@),
                ),
            decreases nm - i,
        {
            proof {
                assert(m0.file_maps[i as int] == self.file_maps@[i as int]@);
                assert(m0.items =~= self.items@.map_values(|x: ItemRow| x@));
                crate::strutil::lemma_filter_take_step(
                    m0.file_maps,
                    i as int,
                    map_outside_library(gitems, library_id@),
                );
            }
            let ghost oldk = kept_maps@;
            if !row_item_in_library(&self.items, self.file_maps[i].item_id.as_str(), library_id) {
                let x = &self.file_maps[i];
                kept_maps.push(
                    FileMapRow {
                        id: x.id.clone(),
                        item_id: x.item_id.clone(),
                        file_id: x.file_id.clone(),
                        map_kind: x.map_kind.clone(),
                        created_ts: x.created_ts,
                    },
                );
                proof {
                    assert(kept_maps@.map_values(|x: FileMapRow| x@) =~= oldk.map_values(
                        |x: FileMapRow| x@,
                    ).push(m0.file_maps[i as int]));
                    assert(m0.file_maps.take(i + 1 as int).filter(
                        map_outside_library(gitems, library_id@),
                    ) =~= m0.file_maps.take(i as int).filter(
                        map_outside_library(gitems, library_id@),
                    ).push(m0.file_maps[i as int]));
                }
            }
            i += 1;
        }
        let np: usize = self.provider_ids.len();
        let mut kept_provs: Vec<ProviderIdRow> = Vec::new();
        let mut i2: usize = 0;
        while i2 < np
            invariant
                0 <= i2 <= np,
                np == self.model().provider_ids.len(),
                self.model() == m0,
                old(self).inv(),
                m0 == old(self).model(),
                gitems == m0.items,
                kept_provs@.map_values(|x: ProviderIdRow| x@) == m0.provider_ids.take(
                    i2 as int,
                ).filter(prov_outside_library(gitems, library_id@)),
            decreases np - i2,
        {
            proof {
                assert(m0.provider_ids[i2 as int] == self.provider_ids@[i2 as int]@);
                assert(m0.items =~= self.items@.map_values(|x: ItemRow| x@));
                crate::strutil::lemma_filter_take_step(
                    m0.provider_ids,
                    i2 as int,
                    prov_outside_library(gitems, library_id@),
                );
            }
            let ghost oldk = kept_provs@;
            if !row_item_in_library(
                &self.items,
                self.provider_ids[i2].item_id.as_str(),
                library_id,
            ) {
                let x = &self.provider_ids[i2];
                kept_provs.push(
                    ProviderIdRow {
                        item_id: x.item_id.clone(),
                        provider: x.provider.clone(),
                        value: x.value.clone(),
                    },
                );
                proof {
                    assert(kept_provs@.map_values(|x: ProviderIdRow| x@) =~= oldk.map_values(
                        |x: ProviderIdRow| x@,
                    ).push(m0.provider_ids[i2 as int]));
                    assert(m0.provider_ids.take(i2 + 1 as int).filter(
                        prov_outside_library(gitems, library_id@),
                    ) =~= m0.provider_ids.take(i2 as int).filter(
                        prov_outside_library(gitems, library_id@),
                    ).push(m0.provider_ids[i2 as int]));
                }
            }
            i2 += 1;
        }
        let nk: usize = self.field_locks.len();
        let mut kept_locks: Vec<FieldLockRow> = Vec::new();
        let mut i3: usize = 0;
        while i3 < nk
            invariant
                0 <= i3 <= nk,
                nk == self.model().field_locks.len(),
                self.model() == m0,
                old(self).inv(),
                m0 == old(self).model(),
                gitems == m0.items,
                kept_locks@.map_values(|x: FieldLockRow| x@) == m0.field_locks.take(
                    i3 as int,
                ).filter(lock_outside_library(gitems, library_id@)),
            decreases nk - i3,
        {
            proof {
                assert(m0.field_locks[i3 as int] == self.field_locks@[i3 as int]@);
                assert(m0.items =~= self.items@.map_values(|x: ItemRow| x@));
                crate::strutil::lemma_filter_take_step(
                    m0.field_locks,
                    i3 as int,
                    lock_outside_library(gitems, library_id@),
                );
            }
            let ghost oldk = kept_locks@;
            if !row_item_in_library(
                &self.items,
                self.field_locks[i3].item_id.as_str(),
                library_id,
            ) {
                let x = &self.field_locks[i3];
                kept_locks.push(
                    FieldLockRow {
                        item_id: x.item_id.clone(),
                        field: x.field.clone(),
                        locked_ts: x.locked_ts,
                    },
                );
                proof {
                    assert(kept_locks@.map_values(|x: FieldLockRow| x@) =~= oldk.map_values(
                        |x: FieldLockRow| x@,
                    ).push(m0.field_locks[i3 as int]));
                    assert(m0.field_locks.take(i3 + 1 as int).filter(
                        lock_outside_library(gitems, library_id@),
                    ) =~= m0.field_locks.take(i3 as int).filter(
                        lock_outside_library(gitems, library_id@),
                    ).push(m0.field_locks[i3 as int]));
                }
            }
            i3 += 1;
        }
        let ns: usize = self.play_states.len();
        let mut kept_plays: Vec<PlayStateRow> = Vec::new();
        let mut i4: usize = 0;
        while i4 < ns
            invariant
                0 <= i4 <= ns,
                ns == self.model().play_states.len(),
                self.model() == m0,
                old(self).inv(),
                m0 == old(self).model(),
                gitems == m0.items,
                kept_plays@.map_values(|x: PlayStateRow| x@) == m0.play_states.take(
                    i4 as int,
                ).filter(play_outside_library(gitems, library_id@)),
            decreases ns - i4,
        {
            proof {
                assert(m0.play_states[i4 as int] == self.play_states@[i4 as int]@);
                assert(m0.items =~= self.items@.map_values(|x: ItemRow| x@));
                crate::strutil::lemma_filter_take_step(
                    m0.play_states,
                    i4 as int,
                    play_outside_library(gitems, library_id@),
                );
            }
            let ghost oldk = kept_plays@;
            if !row_item_in_library(
                &self.items,
                self.play_states[i4].item_id.as_str(),
                library_id,
            ) {
                let x = &self.play_states[i4];
                kept_plays.push(
                    PlayStateRow {
                        user_id: x.user_id.clone(),
                        item_id: x.item_id.clone(),
                        played: x.played,
                        progress_ms: x.progress_ms,
                        last_played_ts: x.last_played_ts,
                        favorite: x.favorite,
                    },
                );
                proof {
                    assert(kept_plays@.map_values(|x: PlayStateRow| x@) =~= oldk.map_values(
                        |x: PlayStateRow| x@,
                    ).push(m0.play_states[i4 as int]));
                    assert(m0.play_states.take(i4 + 1 as int).filter(
                        play_outside_library(gitems, library_id@),
                    ) =~= m0.play_states.take(i4 as int).filter(
                        play_outside_library(gitems, library_id@),
                    ).push(m0.play_states[i4 as int]));
                }
            }
            i4 += 1;
        }
        // now the owned tables themselves
        let ni: usize = self.items.len();
        let mut kept_items: Vec<ItemRow> = Vec::new();
        let mut i5: usize = 0;
        while i5 < ni
            invariant
                0 <= i5 <= ni,
                ni == self.model().items.len(),
                self.model() == m0,
                old(self).inv(),
                m0 == old(self).model(),
                kept_items@.map_values(|x: ItemRow| x@) == m0.items.take(i5 as int).filter(
                    item_other_library(library_id@),
                ),
            decreases ni - i5,
        {
            proof {
                assert(m0.items[i5 as int] == self.items@[i5 as int]@);
                crate::strutil::lemma_filter_take_step(
                    m0.items,
                    i5 as int,
                    item_other_library(library_id@),
                );
            }
            let ghost oldk = kept_items@;
            if !crate::strutil::str_eq(self.items[i5].library_id.as_str(), library_id) {
                kept_items.push(self.items[i5].duplicate());
                proof {
                    assert(kept_items@.map_values(|x: ItemRow| x@) =~= oldk.map_values(
                        |x: ItemRow| x@,
                    ).push(m0.items[i5 as int]));
                    assert(m0.items.take(i5 + 1 as int).filter(item_other_library(library_id@))
                        =~= m0.items.take(i5 as int).filter(item_other_library(library_id@)).push(
                        m0.items[i5 as int],
                    ));
                }
            }
            i5 += 1;
        }
        let nb: usize = self.libraries.len();
        let mut kept_libs: Vec<LibraryRow> = Vec::new();
        let mut i6: usize = 0;
        while i6 < nb
            invariant
                0 <= i6 <= nb,
                nb == self.model().libraries.len(),
                self.model() == m0,
                old(self).inv(),
                m0 == old(self).model(),
                kept_libs@.map_values(|x: LibraryRow| x@) == m0.libraries.take(i6 as int).filter(
                    lib_other(library_id@),
                ),
            decreases nb - i6,
        {
            proof {
                assert(m0.libraries[i6 as int] == self.libraries@[i6 as int]@);
                crate::strutil::lemma_filter_take_step(
                    m0.libraries,
                    i6 as int,
                    lib_other(library_id@),
                );
            }
            let ghost oldk = kept_libs@;
            if !crate::strutil::str_eq(self.libraries[i6].id.as_str(), library_id) {
                let l = &self.libraries[i6];
                kept_libs.push(
                    LibraryRow {
                        id: l.id.clone(),
                        name: l.name.clone(),
                        kind: l.kind,
                        created_ts: l.created_ts,
                        updated_ts: l.updated_ts,
                    },
                );
                proof {
                    assert(kept_libs@.map_values(|x: LibraryRow| x@) =~= oldk.map_values(
                        |x: LibraryRow| x@,
                    ).push(m0.libraries[i6 as int]));
                    assert(m0.libraries.take(i6 + 1 as int).filter(lib_other(library_id@))
                        =~= m0.libraries.take(i6 as int).filter(lib_other(library_id@)).push(
                        m0.libraries[i6 as int],
                    ));
                }
            }
            i6 += 1;
        }
        let nq: usize = self.library_paths.len();
        let mut kept_paths: Vec<LibraryPathRow> = Vec::new();
        let mut i7: usize = 0;
        while i7 < nq
            invariant
                0 <= i7 <= nq,
                nq == self.model().library_paths.len(),
                self.model() == m0,
                old(self).inv(),
                m0 == old(self).model(),
                kept_paths@.map_values(|x: LibraryPathRow| x@) == m0.library_paths.take(
                    i7 as int,
                ).filter(lp_not_library(library_id@)),
            decreases nq - i7,
        {
            proof {
                assert(m0.library_paths[i7 as int] == self.library_paths@[i7 as int]@);
                crate::strutil::lemma_filter_take_step(
                    m0.library_paths,
                    i7 as int,
                    lp_not_library(library_id@),
                );
            }
            let ghost oldk = kept_paths@;
            if !crate::strutil::str_eq(self.library_paths[i7].library_id.as_str(), library_id) {
                let p = &self.library_paths[i7];
                kept_paths.push(
                    LibraryPathRow {
                        id: p.id.clone(),
                        library_id: p.library_id.clone(),
                        path: p.path.clone(),
                        is_read_only: p.is_read_only,
                    },
                );
                proof {
                    assert(kept_paths@.map_values(|x: LibraryPathRow| x@) =~= oldk.map_values(
                        |x: LibraryPathRow| x@,
                    ).push(m0.library_paths[i7 as int]));
                    assert(m0.library_paths.take(i7 + 1 as int).filter(
                        lp_not_library(library_id@),
                    ) =~= m0.library_paths.take(i7 as int).filter(lp_not_library(library_id@)).push(
                        m0.library_paths[i7 as int],
                    ));
                }
            }
            i7 += 1;
        }
        let nset: usize = self.library_settings.len();
        let mut kept_settings: Vec<LibrarySettingsRow> = Vec::new();
        let mut i8: usize = 0;
        while i8 < nset
            invariant
                0 <= i8 <= nset,
                nset == self.model().library_settings.len(),
                self.model() == m0,
                old(self).inv(),
                m0 == old(self).model(),
                kept_settings@.map_values(|x: LibrarySettingsRow| x@) == m0.library_settings.take(
                    i8 as int,
                ).filter(ls_other(library_id@)),
            decreases nset - i8,
        {
            proof {
                assert(m0.library_settings[i8 as int] == self.library_settings@[i8 as int]@);
                crate::strutil::lemma_filter_take_step(
                    m0.library_settings,
                    i8 as int,
                    ls_other(library_id@),
                );
            }
            let ghost oldk = kept_settings@;
            if !crate::strutil::str_eq(
                self.library_settings[i8].library_id.as_str(),
                library_id,
            ) {
                let x = &self.library_settings[i8];
                kept_settings.push(
                    LibrarySettingsRow {
                        library_id: x.library_id.clone(),
                        show_images: x.show_images,
                        prefer_local_artwork: x.prefer_local_artwork,
                        fetch_online_artwork: x.fetch_online_artwork,
                    },
                );
                proof {
                    assert(kept_settings@.map_values(|x: LibrarySettingsRow| x@)
                        =~= oldk.map_values(|x: LibrarySettingsRow| x@).push(
                        m0.library_settings[i8 as int],
                    ));
                    assert(m0.library_settings.take(i8 + 1 as int).filter(ls_other(library_id@))
                        =~= m0.library_settings.take(i8 as int).filter(ls_other(library_id@)).push(
                        m0.library_settings[i8 as int],
                    ));
                }
            }
            i8 += 1;
        }
        let na: usize = self.user_access.len();
        let mut kept_access: Vec<(String, String)> = Vec::new();
        let mut i9: usize = 0;
        while i9 < na
            invariant
                0 <= i9 <= na,
                na == self.model().user_access.len(),
                self.model() == m0,
                old(self).inv(),
                m0 == old(self).model(),
                kept_access@.map_values(|p: (String, String)| (p.0@, p.1@)) == m0.user_access.take(
                    i9 as int,
                ).filter(access_other_library(library_id@)),
            decreases na - i9,
        {
            proof {
                assert(m0.user_access[i9 as int] == (
                    self.user_access@[i9 as int].0@,
                    self.user_access@[i9 as int].1@,
                ));
                crate::strutil::lemma_filter_take_step(
                    m0.user_access,
                    i9 as int,
                    access_other_library(library_id@),
                );
            }
            let ghost oldk = kept_access@;
            if !crate::strutil::str_eq(self.user_access[i9].1.as_str(), library_id) {
                kept_access.push((self.user_access[i9].0.clone(), self.user_access[i9].1.clone()));
                proof {
                    assert(kept_access@.map_values(|p: (String, String)| (p.0@, p.1@))
                        =~= oldk.map_values(|p: (String, String)| (p.0@, p.1@)).push(
                        m0.user_access[i9 as int],
                    ));
                    assert(m0.user_access.take(i9 + 1 as int).filter(
                        access_other_library(library_id@),
                    ) =~= m0.user_access.take(i9 as int).filter(
                        access_other_library(library_id@),
                    ).push(m0.user_access[i9 as int]));
                }
            }
            i9 += 1;
        }
        self.file_maps = kept_maps;
        self.provider_ids = kept_provs;
        self.field_locks = kept_locks;
        self.play_states = kept_plays;
        self.items = kept_items;
        self.libraries = kept_libs;
        self.library_paths = kept_paths;
        self.library_settings = kept_settings;
        self.user_access = kept_access;
        proof {
            lemma_cascade_full_takes(m0);
            let m1 = self.model();
            assert(m1 == StoreModel {
                libraries: m0.libraries.filter(lib_other(library_id@)),
                library_paths: m0.library_paths.filter(lp_not_library(library_id@)),
                library_settings: m0.library_settings.filter(ls_other(library_id@)),
                items: m0.items.filter(item_other_library(library_id@)),
                file_maps: m0.file_maps.filter(map_outside_library(m0.items, library_id@)),
                provider_ids: m0.provider_ids.filter(prov_outside_library(m0.items, library_id@)),
                field_locks: m0.field_locks.filter(lock_outside_library(m0.items, library_id@)),
                play_states: m0.play_states.filter(play_outside_library(m0.items, library_id@)),
                user_access: m0.user_access.filter(access_other_library(library_id@)),
                ..m0
            });
            lemma_cascade_keeps_inv(m0, m1, library_id@);
        }
        true
    }

    // ─── settings ──────────────────────────────────────────────────────────

    /// Read one settings key.
    pub fn get_setting(&self, key: &str) -> (r: Option<String>)
        ensures
            match (r, find_setting_from(self.model().settings, 0, key@)) {
                (Some(v), Some(k)) => v@ == self.model().settings[k].1,
                (None, None) => true,
                _ => false,
            },
    {
        let n: usize = self.settings.len();
        let mut i: usize = 0;
        while i < n
            invariant
                0 <= i <= n,
                n == self.model().settings.len(),
                find_setting_from(self.model().settings, 0, key@) == find_setting_from(
                    self.model().settings,
                    i as int,
                    key@,
                ),
            decreases n - i,
        {
            proof {
                assert(self.model().settings[i as int] == (
                    self.settings@[i as int].0@,
                    self.settings@[i as int].1@,
                ));
            }
            if crate::strutil::str_eq(self.settings[i].0.as_str(), key) {
                return Some(self.settings[i].1.clone());
            }
            i += 1;
        }
        None
    }

    /// Write one settings key, replacing any earlier value.
    pub fn set_setting(&mut self, key: &str, value: &str)
        requires
            old(self).inv(),
        ensures
            final(self).inv(),
            final(self).model() == (StoreModel {
                settings: match find_setting_from(old(self).model().settings, 0, key@) {
                    Some(k) => old(self).model().settings.update(k, (key@, value@)),
                    None => old(self).model().settings.push((key@, value@)),
                },
                ..old(self).model()
            }),
    {
        let ghost m0 = self.model();
        let n: usize = self.settings.len();
        let mut i: usize = 0;
        while i < n
            invariant
                0 <= i <= n,
                n == self.model().settings.len(),
                self.model() == m0,
                old(self).inv(),
                m0 == old(self).model(),
                find_setting_from(m0.settings, 0, key@) == find_setting_from(
                    m0.settings,
                    i as int,
                    key@,
                ),
            decreases n - i,
        {
            proof {
                assert(self.model().settings[i as int] == (
                    self.settings@[i as int].0@,
                    self.settings@[i as int].1@,
                ));
            }
            if crate::strutil::str_eq(self.settings[i].0.as_str(), key) {
                self.settings.set(i, (String::from_str(key), String::from_str(value)));
                proof {
                    let m1 = self.model();
                    assert(m1.settings =~= m0.settings.update(i as int, (key@, value@)));
                    assert(m1 == StoreModel { settings: m1.settings, ..m0 });
                    assert forall|a: int, b: int|
                        0 <= a < b < m1.settings.len() implies (#[trigger] m1.settings[a]).0 != (
                    #[trigger] m1.settings[b]).0 by {
                        assert(m1.settings[a].0 == m0.settings[a].0);
                        assert(m1.settings[b].0 == m0.settings[b].0);
                    }
                }
                return ;
            }
            i += 1;
        }
        self.settings.push((String::from_str(key), String::from_str(value)));
        proof {
            let m1 = self.model();
            assert(m1.settings =~= m0.settings.push((key@, value@)));
            assert(m1 == StoreModel { settings: m1.settings, ..m0 });
            lemma_find_setting_props(m0.settings, 0, key@);
            assert forall|a: int, b: int|
                0 <= a < b < m1.settings.len() implies (#[trigger] m1.settings[a]).0 != (
            #[trigger] m1.settings[b]).0 by {
                if b == m1.settings.len() - 1 {
                    assert(m1.settings[a] == m0.settings[a]);
                }
            }
        }
    }

    // ─── jobs ──────────────────────────────────────────────────────────────

    /// Insert a queued job.
    pub fn create_job(&mut self, kind: &str, payload_json: Option<String>, now_ts: i64) -> (r:
        Result<JobRow, StoreError>)
        requires
            old(self).inv(),
        ensures
            final(self).inv(),
            ({
                let m0 = old(self).model();
                match r {
                    Ok(row) => {
                        &&& row@.id == dec_str(m0.next_id)
                        &&& row@.kind == kind@
                        &&& row@.status == JobStatus::Queued
                        &&& row@.progress_milli == 0
                        &&& final(self).model() == (StoreModel {
                            next_id: m0.next_id + 1,
                            jobs: m0.jobs.push(row@),
                            ..m0
                        })
                    },
                    Err(e) => e == StoreError::Full && m0.next_id == u64::MAX
                        && final(self).model() == m0,
                    _ => false,
                }
            }),
    {
        let ghost m0 = self.model();
        let id = match self.mint_id() {
            Ok(id) => id,
            Err(e) => {
                return Err(e);
            },
        };
        let row = JobRow {
            id: id.clone(),
            kind: String::from_str(kind),
            status: JobStatus::Queued,
            progress_milli: 0,
            payload_json,
            error: None,
            created_ts: now_ts,
            updated_ts: now_ts,
        };
        let out = JobRow {
            id,
            kind: String::from_str(kind),
            status: JobStatus::Queued,
            progress_milli: 0,
            payload_json: clone_opt(&row.payload_json),
            error: None,
            created_ts: now_ts,
            updated_ts: now_ts,
        };
        let ghost grow = row@;
        self.jobs.push(row);
        proof {
            let m1 = self.model();
            assert(m1.jobs =~= m0.jobs.push(grow));
            assert(m1 == StoreModel { next_id: m0.next_id + 1, jobs: m1.jobs, ..m0 });
            lemma_inv_bump(m0, StoreModel { next_id: m0.next_id + 1, ..m0 });
            assert forall|a: int, b: int|
                0 <= a < b < m1.jobs.len() implies (#[trigger] m1.jobs[a]).id != (
            #[trigger] m1.jobs[b]).id by {
                if b == m1.jobs.len() - 1 {
                    lemma_id_fresh(m0.jobs[a].id, m0.next_id);
                }
            }
            assert forall|a: int|
                0 <= a < m1.jobs.len() implies id_ok((#[trigger] m1.jobs[a]).id, m1.next_id) by {
                if a < m1.jobs.len() - 1 {
                    let w = choose|w: nat| w < m0.next_id && m0.jobs[a].id == dec_str(w);
                    assert(w < m1.next_id);
                } else {
                    assert(m1.jobs[a].id == dec_str(m0.next_id));
                }
            }
            assert(out@ == grow);
        }
        Ok(out)
    }

    /// Fetch a job by id.
    pub fn get_job(&self, job_id: &str) -> (r: Option<JobRow>)
        ensures
            match (r, find_job_from(self.model().jobs, 0, job_id@)) {
                (Some(row), Some(k)) => row@ == self.model().jobs[k],
                (None, None) => true,
                _ => false,
            },
    {
        let n: usize = self.jobs.len();
        let mut i: usize = 0;
        while i < n
            invariant
                0 <= i <= n,
                n == self.model().jobs.len(),
                find_job_from(self.model().jobs, 0, job_id@) == find_job_from(
                    self.model().jobs,
                    i as int,
                    job_id@,
                ),
            decreases n - i,
        {
            proof {
                assert(self.model().jobs[i as int] == self.jobs@[i as int]@);
            }
            if crate::strutil::str_eq(self.jobs[i].id.as_str(), job_id) {
                let j = &self.jobs[i];
                return Some(
                    JobRow {
                        id: j.id.clone(),
                        kind: j.kind.clone(),
                        status: j.status,
                        progress_milli: j.progress_milli,
                        payload_json: clone_opt(&j.payload_json),
                        error: clone_opt(&j.error),
                        created_ts: j.created_ts,
                        updated_ts: j.updated_ts,
                    },
                );
            }
            i += 1;
        }
        None
    }

    /// Set a job's status, progress and error text. Returns whether the job
    /// exists.
    pub fn update_job_status(
        &mut self,
        job_id: &str,
        status: JobStatus,
        progress_milli: u32,
        error: Option<&str>,
        now_ts: i64,
    ) -> (r: bool)
        requires
            old(self).inv(),
            progress_milli <= 1000,
        ensures
            final(self).inv(),
            r == (find_job_from(old(self).model().jobs, 0, job_id@) is Some),
            final(self).model() == (StoreModel {
                jobs: match find_job_from(old(self).model().jobs, 0, job_id@) {
                    Some(k) => old(self).model().jobs.update(
                        k,
                        JobModel {
                            status,
                            progress_milli,
                            error: match error {
                                Some(e) => Some(e@),
                                None => None,
                            },
                            updated_ts: now_ts,
                            ..old(self).model().jobs[k]
                        },
                    ),
                    None => old(self).model().jobs,
                },
                ..old(self).model()
            }),
    {
        let ghost m0 = self.model();
        let n: usize = self.jobs.len();
        let mut i: usize = 0;
        while i < n
            invariant
                0 <= i <= n,
                n == self.model().jobs.len(),
                self.model() == m0,
                old(self).inv(),
                m0 == old(self).model(),
                progress_milli <= 1000,
                find_job_from(m0.jobs, 0, job_id@) == find_job_from(m0.jobs, i as int, job_id@),
            decreases n - i,
        {
            proof {
                assert(self.model().jobs[i as int] == self.jobs@[i as int]@);
            }
            if crate::strutil::str_eq(self.jobs[i].id.as_str(), job_id) {
                let j = &self.jobs[i];
                let row = JobRow {
                    id: j.id.clone(),
                    kind: j.kind.clone(),
                    status,
                    progress_milli,
                    payload_json: clone_opt(&j.payload_json),
                    error: match error {
                        Some(e) => Some(String::from_str(e)),
                        None => None,
                    },
                    created_ts: j.created_ts,
                    updated_ts: now_ts,
                };
                let ghost grow = row@;
                self.jobs.set(i, row);
                proof {
                    let m1 = self.model();
                    assert(m1.jobs =~= m0.jobs.update(i as int, grow));
                    assert(m1 == StoreModel { jobs: m1.jobs, ..m0 });
                    assert(grow == JobModel {
                        status,
                        progress_milli,
                        error: match error {
                            Some(e) => Some(e@),
                            None => None,
                        },
                        updated_ts: now_ts,
                        ..m0.jobs[i as int]
                    });
                    assert forall|a: int, b: int|
                        0 <= a < b < m1.jobs.len() implies (#[trigger] m1.jobs[a]).id != (
                    #[trigger] m1.jobs[b]).id by {
                        assert(m1.jobs[a].id == m0.jobs[a].id);
                        assert(m1.jobs[b].id == m0.jobs[b].id);
                    }
                    assert forall|a: int|
                        0 <= a < m1.jobs.len() implies id_ok(
                        (#[trigger] m1.jobs[a]).id,
                        m1.next_id,
                    ) by {
                        assert(m1.jobs[a].id == m0.jobs[a].id);
                    }
                }
                return true;
            }
            i += 1;
        }
        false
    }

    /// Cancel a job: `queued` or `running` becomes `cancelled`; any other
    /// state is left alone and reported `false`.
    pub fn cancel_job(&mut self, job_id: &str, now_ts: i64) -> (r: bool)
        requires
            old(self).inv(),
        ensures
            final(self).inv(),
            ({
                let m0 = old(self).model();
                match find_job_from(m0.jobs, 0, job_id@) {
                    Some(k) => if m0.jobs[k].status == JobStatus::Queued || m0.jobs[k].status
                        == JobStatus::Running {
                        r && final(self).model() == (StoreModel {
                            jobs: m0.jobs.update(
                                k,
                                JobModel {
                                    status: JobStatus::Cancelled,
                                    updated_ts: now_ts,
                                    ..m0.jobs[k]
                                },
                            ),
                            ..m0
                        })
                    } else {
                        !r && final(self).model() == m0
                    },
                    None => !r && final(self).model() == m0,
                }
            }),
    {
        let ghost m0 = self.model();
        let n: usize = self.jobs.len();
        let mut i: usize = 0;
        while i < n
            invariant
                0 <= i <= n,
                n == self.model().jobs.len(),
                self.model() == m0,
                old(self).inv(),
                m0 == old(self).model(),
                find_job_from(m0.jobs, 0, job_id@) == find_job_from(m0.jobs, i as int, job_id@),
            decreases n - i,
        {
            proof {
                assert(self.model().jobs[i as int] == self.jobs@[i as int]@);
            }
            if crate::strutil::str_eq(self.jobs[i].id.as_str(), job_id) {
                let j = &self.jobs[i];
                let active = match j.status {
                    JobStatus::Queued | JobStatus::Running => true,
                    _ => false,
                };
                if !active {
                    proof {
                        assert(m0 == StoreModel { jobs: m0.jobs, ..m0 });
                    }
                    return false;
                }
                let row = JobRow {
                    id: j.id.clone(),
                    kind: j.kind.clone(),
                    status: JobStatus::Cancelled,
                    progress_milli: j.progress_milli,
                    payload_json: clone_opt(&j.payload_json),
                    error: clone_opt(&j.error),
                    created_ts: j.created_ts,
                    updated_ts: now_ts,
                };
                let ghost grow = row@;
                self.jobs.set(i, row);
                proof {
                    let m1 = self.model();
                    assert(m1.jobs =~= m0.jobs.update(i as int, grow));
                    assert(m1 == StoreModel { jobs: m1.jobs, ..m0 });
                    assert(grow == JobModel {
                        status: JobStatus::Cancelled,
                        updated_ts: now_ts,
                        ..m0.jobs[i as int]
                    });
                    assert forall|a: int, b: int|
                        0 <= a < b < m1.jobs.len() implies (#[trigger] m1.jobs[a]).id != (
                    #[trigger] m1.jobs[b]).id by {
                        assert(m1.jobs[a].id == m0.jobs[a].id);
                        assert(m1.jobs[b].id == m0.jobs[b].id);
                    }
                    assert forall|a: int|
                        0 <= a < m1.jobs.len() implies id_ok(
                        (#[trigger] m1.jobs[a]).id,
                        m1.next_id,
                    ) by {
                        assert(m1.jobs[a].id == m0.jobs[a].id);
                    }
                }
                return true;
            }
            i += 1;
        }
        false
    }

    // ─── users ─────────────────────────────────────────────────────────────

    /// Create a user. The password is hashed by the outside hasher; the
    /// username must be free.
    pub fn create_user(&mut self, username: &str, password: &str, role: UserRole, now_ts: i64)
        -> (r: Result<String, StoreError>)
        requires
            old(self).inv(),
        ensures
            final(self).inv(),
            ({
                let m0 = old(self).model();
                match r {
                    Ok(id) => {
                        &&& find_user_by_name_from(m0.users, 0, username@) is None
                        &&& id@ == dec_str(m0.next_id)
                        &&& final(self).model().users.len() == m0.users.len() + 1
                        &&& ({
                            let u = final(self).model().users.last();
                            u.id == dec_str(m0.next_id) && u.username == username@ && u.role
                                == role && u.created_ts == now_ts && argon2_verifies(
                                password@,
                                u.password_hash,
                            )
                        })
                        &&& final(self).model() == (StoreModel {
                            next_id: m0.next_id + 1,
                            users: final(self).model().users,
                            ..m0
                        })
                    },
                    Err(StoreError::Conflict) => find_user_by_name_from(
                        m0.users,
                        0,
                        username@,
                    ) is Some && final(self).model() == m0,
                    Err(StoreError::Full) => m0.next_id == u64::MAX && final(self).model() == m0,
                    Err(StoreError::Internal) => final(self).model() == m0,
                    _ => false,
                }
            }),
    {
        let ghost m0 = self.model();
        let n: usize = self.users.len();
        let mut i: usize = 0;
        while i < n
            invariant
                0 <= i <= n,
                n == self.model().users.len(),
                self.model() == m0,
                old(self).inv(),
                m0 == old(self).model(),
                find_user_by_name_from(m0.users, 0, username@) == find_user_by_name_from(
                    m0.users,
                    i as int,
                    username@,
                ),
            decreases n - i,
        {
            proof {
                assert(self.model().users[i as int] == self.users@[i as int]@);
            }
            if crate::strutil::str_eq(self.users[i].username.as_str(), username) {
                return Err(StoreError::Conflict);
            }
            i += 1;
        }
        let hash = match argon2_hash_password(password) {
            Some(h) => h,
            None => {
                return Err(StoreError::Internal);
            },
        };
        let id = match self.mint_id() {
            Ok(id) => id,
            Err(e) => {
                return Err(e);
            },
        };
        let row = UserRow {
            id: id.clone(),
            username: String::from_str(username),
            password_hash: hash,
            role,
            created_ts: now_ts,
        };
        let ghost grow = row@;
        self.users.push(row);
        proof {
            let m1 = self.model();
            assert(m1.users =~= m0.users.push(grow));
            assert(m1 == StoreModel { next_id: m0.next_id + 1, users: m1.users, ..m0 });
            lemma_find_user_name_props(m0.users, 0, username@);
            assert forall|a: int, b: int|
                0 <= a < b < m1.users.len() implies (#[trigger] m1.users[a]).id != (
            #[trigger] m1.users[b]).id && m1.users[a].username != m1.users[b].username by {
                if b == m1.users.len() - 1 {
                    lemma_id_fresh(m0.users[a].id, m0.next_id);
                    assert(m1.users[a] == m0.users[a]);
                }
            }
            assert forall|a: int|
                0 <= a < m1.users.len() implies id_ok((#[trigger] m1.users[a]).id, m1.next_id) by {
                if a < m1.users.len() - 1 {
                    let w = choose|w: nat| w < m0.next_id && m0.users[a].id == dec_str(w);
                    assert(w < m1.next_id);
                } else {
                    assert(m1.users[a].id == dec_str(m0.next_id));
                }
            }
        }
        Ok(id)
    }

    /// Find a user by username.
    pub fn find_by_username(&self, username: &str) -> (r: Option<UserRow>)
        ensures
            match (r, find_user_by_name_from(self.model().users, 0, username@)) {
                (Some(row), Some(k)) => row@ == self.model().users[k],
                (None, None) => true,
                _ => false,
            },
    {
        let n: usize = self.users.len();
        let mut i: usize = 0;
        while i < n
            invariant
                0 <= i <= n,
                n == self.model().users.len(),
                find_user_by_name_from(self.model().users, 0, username@) == find_user_by_name_from(
                    self.model().users,
                    i as int,
                    username@,
                ),
            decreases n - i,
        {
            proof {
                assert(self.model().users[i as int] == self.users@[i as int]@);
            }
            if crate::strutil::str_eq(self.users[i].username.as_str(), username) {
                let u = &self.users[i];
                return Some(
                    UserRow {
                        id: u.id.clone(),
                        username: u.username.clone(),
                        password_hash: u.password_hash.clone(),
                        role: u.role,
                        created_ts: u.created_ts,
                    },
                );
            }
            i += 1;
        }
        None
    }

    /// Find a user by id.
    pub fn find_by_id(&self, user_id: &str) -> (r: Option<UserRow>)
        ensures
            match (r, find_user_by_id_from(self.model().users, 0, user_id@)) {
                (Some(row), Some(k)) => row@ == self.model().users[k],
                (None, None) => true,
                _ => false,
            },
    {
        let n: usize = self.users.len();
        let mut i: usize = 0;
        while i < n
            invariant
                0 <= i <= n,
                n == self.model().users.len(),
                find_user_by_id_from(self.model().users, 0, user_id@) == find_user_by_id_from(
                    self.model().users,
                    i as int,
                    user_id@,
                ),
            decreases n - i,
        {
            proof {
                assert(self.model().users[i as int] == self.users@[i as int]@);
            }
            if crate::strutil::str_eq(self.users[i].id.as_str(), user_id) {
                let u = &self.users[i];
                return Some(
                    UserRow {
                        id: u.id.clone(),
                        username: u.username.clone(),
                        password_hash: u.password_hash.clone(),
                        role: u.role,
                        created_ts: u.created_ts,
                    },
                );
            }
            i += 1;
        }
        None
    }

    /// How many users exist.
    pub fn count_users(&self) -> (r: usize)
        ensures
            r == self.model().users.len(),
    {
        self.users.len()
    }

    /// Replace a user's library access with the given set.
    pub fn set_library_access(&mut self, user_id: &str, library_ids: &Vec<String>)
        requires
            old(self).inv(),
        ensures
            final(self).inv(),
            ({
                let kept = old(self).model().user_access.filter(not_user(user_id@));
                &&& final(self).model().user_access.len() == kept.len() + library_ids@.len()
                &&& forall|k: int|
                    0 <= k < kept.len() ==> #[trigger] final(self).model().user_access[k]
                        == kept[k]
                &&& forall|k: int|
                    0 <= k < library_ids@.len() ==> #[trigger] final(self).model().user_access[
                        kept.len() + k] == (user_id@, (#[trigger] library_ids@[k])@)
                &&& final(self).model() == (StoreModel {
                    user_access: final(self).model().user_access,
                    ..old(self).model()
                })
            }),
    {
        let ghost m0 = self.model();
        let n: usize = self.user_access.len();
        let mut kept: Vec<(String, String)> = Vec::new();
        let mut i: usize = 0;
        while i < n
            invariant
                0 <= i <= n,
                n == self.model().user_access.len(),
                self.model() == m0,
                old(self).inv(),
                m0 == old(self).model(),
                kept@.map_values(|p: (String, String)| (p.0@, p.1@)) == m0.user_access.take(
                    i as int,
                ).filter(not_user(user_id@)),
            decreases n - i,
        {
            proof {
                assert(m0.user_access[i as int] == (
                    self.user_access@[i as int].0@,
                    self.user_access@[i as int].1@,
                ));
                crate::strutil::lemma_filter_take_step(
                    m0.user_access,
                    i as int,
                    not_user(user_id@),
                );
            }
            let ghost old_kept = kept@;
            if !crate::strutil::str_eq(self.user_access[i].0.as_str(), user_id) {
                kept.push((self.user_access[i].0.clone(), self.user_access[i].1.clone()));
                proof {
                    assert(kept@.map_values(|p: (String, String)| (p.0@, p.1@)) =~= old_kept
                        .map_values(|p: (String, String)| (p.0@, p.1@)).push(
                        m0.user_access[i as int],
                    ));
                    assert(m0.user_access.take(i + 1 as int).filter(not_user(user_id@))
                        =~= m0.user_access.take(i as int).filter(not_user(user_id@)).push(
                        m0.user_access[i as int],
                    ));
                }
            }
            i += 1;
        }
        let ghost gkept = kept@.map_values(|p: (String, String)| (p.0@, p.1@));
        let m: usize = library_ids.len();
        let mut j: usize = 0;
        while j < m
            invariant
                0 <= j <= m,
                m == library_ids@.len(),
                kept@.len() == gkept.len() + j,
                forall|k: int|
                    0 <= k < gkept.len() ==> ((#[trigger] kept@[k]).0@, kept@[k].1@) == gkept[k],
                forall|k: int|
                    0 <= k < j ==> ((#[trigger] kept@[gkept.len() + k]).0@, kept@[gkept.len()
                        + k].1@) == (user_id@, (#[trigger] library_ids@[k])@),
            decreases m - j,
        {
            kept.push((String::from_str(user_id), library_ids[j].clone()));
            j += 1;
        }
        self.user_access = kept;
        proof {
            let m1 = self.model();
            assert(m1 == StoreModel { user_access: m1.user_access, ..m0 });
            assert(m0.user_access.take(n as int) =~= m0.user_access);
            assert forall|k: int|
                0 <= k < gkept.len() implies #[trigger] m1.user_access[k] == gkept[k] by {
                assert(m1.user_access[k] == (kept@[k].0@, kept@[k].1@));
            }
            assert forall|k: int|
                0 <= k < library_ids@.len() implies #[trigger] m1.user_access[gkept.len() + k] == (
                user_id@,
                (#[trigger] library_ids@[k])@,
            ) by {
                assert(m1.user_access[gkept.len() + k] == (
                    kept@[gkept.len() + k].0@,
                    kept@[gkept.len() + k].1@,
                ));
            }
        }
    }

    /// The library ids a user may reach.
    pub fn get_library_access(&self, user_id: &str) -> (r: Vec<String>)
        ensures
            r@.map_values(|l: String| l@) == self.model().user_access.filter(
                access_of_user(user_id@),
            ).map_values(|p: (Seq<char>, Seq<char>)| p.1),
    {
        let ghost m = self.model().user_access;
        let n: usize = self.user_access.len();
        let mut out: Vec<String> = Vec::new();
        let mut i: usize = 0;
        while i < n
            invariant
                0 <= i <= n,
                n == m.len(),
                m == self.model().user_access,
                out@.map_values(|l: String| l@) == m.take(i as int).filter(
                    access_of_user(user_id@),
                ).map_values(|p: (Seq<char>, Seq<char>)| p.1),
            decreases n - i,
        {
            proof {
                assert(m[i as int] == (
                    self.user_access@[i as int].0@,
                    self.user_access@[i as int].1@,
                ));
                crate::strutil::lemma_filter_take_step(m, i as int, access_of_user(user_id@));
            }
            let ghost old_out = out@;
            if crate::strutil::str_eq(self.user_access[i].0.as_str(), user_id) {
                out.push(self.user_access[i].1.clone());
                proof {
                    assert(out@.map_values(|l: String| l@) =~= old_out.map_values(
                        |l: String| l@,
                    ).push(m[i as int].1));
                    assert(m.take(i + 1 as int).filter(access_of_user(user_id@)).map_values(
                        |p: (Seq<char>, Seq<char>)| p.1,
                    ) =~= m.take(i as int).filter(access_of_user(user_id@)).map_values(
                        |p: (Seq<char>, Seq<char>)| p.1,
                    ).push(m[i as int].1));
                }
            }
            i += 1;
        }
        proof {
            assert(m.take(n as int) =~= m);
        }
        out
    }

    /// Whether a user may reach a library.
    pub fn is_library_allowed(&self, user_id: &str, library_id: &str) -> (r: bool)
        ensures
            r == exists|k: int|
                0 <= k < self.model().user_access.len() && (#[trigger] self.model().user_access[k])
                    == (user_id@, library_id@),
    {
        let n: usize = self.user_access.len();
        let mut i: usize = 0;
        while i < n
            invariant
                0 <= i <= n,
                n == self.model().user_access.len(),
                forall|k: int|
                    0 <= k < i ==> (#[trigger] self.model().user_access[k]) != (
                    user_id@,
                    library_id@,
                ),
            decreases n - i,
        {
            proof {
                assert(self.model().user_access[i as int] == (
                    self.user_access@[i as int].0@,
                    self.user_access@[i as int].1@,
                ));
            }
            if crate::strutil::str_eq(self.user_access[i].0.as_str(), user_id)
                && crate::strutil::str_eq(self.user_access[i].1.as_str(), library_id) {
                return true;
            }
            i += 1;
        }
        false
    }
}

/// Access pairs of any other user.
pub open spec fn not_user(user_id: Seq<char>) -> spec_fn((Seq<char>, Seq<char>)) -> bool {
    |p: (Seq<char>, Seq<char>)| p.0 != user_id
}

pub proof fn lemma_find_setting_props(rows: Seq<(Seq<char>, Seq<char>)>, i: int, key: Seq<char>)
    requires
        0 <= i,
    ensures
        match find_setting_from(rows, i, key) {
            Some(k) => i <= k < rows.len() && rows[k].0 == key,
            None => forall|j: int| i <= j < rows.len() ==> (#[trigger] rows[j]).0 != key,
        },
    decreases rows.len() - i,
{
    if i < rows.len() && rows[i].0 != key {
        lemma_find_setting_props(rows, i + 1, key);
    }
}

} // verus!

//! The metadata merge engine: provider metadata fills an item's fields,
//! but a field the user has locked is never overwritten.
//!
//! The merge is a pure function of the current metadata, the provider
//! metadata, and the locked-field names; reading and writing the item row
//! around it goes through the store. A field is taken from the provider
//! exactly when the provider has a value, the field is not locked, and the
//! current value is absent or different; the updated-field list names those
//! fields in order.

use crate::strutil::str_eq;
use vstd::prelude::*;
use vstd::string::StringExecFns;

verus! {

/// A person credited on an item.
#[derive(Debug, Clone)]
pub struct PersonInfo {
    pub name: String,
    pub role: String,
    pub character: Option<String>,
    pub thumb_url: Option<String>,
}

pub struct PersonView {
    pub name: Seq<char>,
    pub role: Seq<char>,
    pub character: Option<Seq<char>>,
    pub thumb_url: Option<Seq<char>>,
}

impl View for PersonInfo {
    type V = PersonView;

    open spec fn view(&self) -> PersonView {
        PersonView {
            name: self.name@,
            role: self.role@,
            character: opt_str_view(self.character),
            thumb_url: opt_str_view(self.thumb_url),
        }
    }
}

/// Metadata for an item, as a provider or the item row carries it. The
/// community rating is held in thousandths.
#[derive(Debug, Clone)]
pub struct ItemMetadata {
    pub title: Option<String>,
    pub original_title: Option<String>,
    pub sort_title: Option<String>,
    pub overview: Option<String>,
    pub tagline: Option<String>,
    pub year: Option<i64>,
    pub premiere_date: Option<String>,
    pub end_date: Option<String>,
    pub runtime_minutes: Option<i64>,
    pub community_rating_milli: Option<i64>,
    pub official_rating: Option<String>,
    pub genres: Option<Vec<String>>,
    pub studios: Option<Vec<String>>,
    pub people: Option<Vec<PersonInfo>>,
    pub poster_url: Option<String>,
    pub backdrop_url: Option<String>,
    pub logo_url: Option<String>,
    pub thumb_url: Option<String>,
}

pub struct MetadataView {
    pub title: Option<Seq<char>>,
    pub original_title: Option<Seq<char>>,
    pub sort_title: Option<Seq<char>>,
    pub overview: Option<Seq<char>>,
    pub tagline: Option<Seq<char>>,
    pub year: Option<i64>,
    pub premiere_date: Option<Seq<char>>,
    pub end_date: Option<Seq<char>>,
    pub runtime_minutes: Option<i64>,
    pub community_rating_milli: Option<i64>,
    pub official_rating: Option<Seq<char>>,
    pub genres: Option<Seq<Seq<char>>>,
    pub studios: Option<Seq<Seq<char>>>,
    pub people: Option<Seq<PersonView>>,
    pub poster_url: Option<Seq<char>>,
    pub backdrop_url: Option<Seq<char>>,
    pub logo_url: Option<Seq<char>>,
    pub thumb_url: Option<Seq<char>>,
}

pub open spec fn opt_str_view(o: Option<String>) -> Option<Seq<char>> {
    match o {
        Some(s) => Some(s@),
        None => None,
    }
}

pub open spec fn opt_list_view(o: Option<Vec<String>>) -> Option<Seq<Seq<char>>> {
    match o {
        Some(v) => Some(v@.map_values(|s: String| s@)),
        None => None,
    }
}

pub open spec fn opt_people_view(o: Option<Vec<PersonInfo>>) -> Option<Seq<PersonView>> {
    match o {
        Some(v) => Some(v@.map_values(|p: PersonInfo| p@)),
        None => None,
    }
}

impl View for ItemMetadata {
    type V = MetadataView;

    open spec fn view(&self) -> MetadataView {
        MetadataView {
            title: opt_str_view(self.title),
            original_title: opt_str_view(self.original_title),
            sort_title: opt_str_view(self.sort_title),
            overview: opt_str_view(self.overview),
            tagline: opt_str_view(self.tagline),
            year: self.year,
            premiere_date: opt_str_view(self.premiere_date),
            end_date: opt_str_view(self.end_date),
            runtime_minutes: self.runtime_minutes,
            community_rating_milli: self.community_rating_milli,
            official_rating: opt_str_view(self.official_rating),
            genres: opt_list_view(self.genres),
            studios: opt_list_view(self.studios),
            people: opt_people_view(self.people),
            poster_url: opt_str_view(self.poster_url),
            backdrop_url: opt_str_view(self.backdrop_url),
            logo_url: opt_str_view(self.logo_url),
            thumb_url: opt_str_view(self.thumb_url),
        }
    }
}

impl ItemMetadata {
    /// Metadata with every field absent.
    pub fn empty() -> (r: ItemMetadata)
        ensures
            r@.title is None,
            r@.original_title is None,
            r@.sort_title is None,
            r@.overview is None,
            r@.tagline is None,
            r@.year is None,
            r@.premiere_date is None,
            r@.end_date is None,
            r@.runtime_minutes is None,
            r@.community_rating_milli is None,
            r@.official_rating is None,
            r@.genres is None,
            r@.studios is None,
            r@.people is None,
            r@.poster_url is None,
            r@.backdrop_url is None,
            r@.logo_url is None,
            r@.thumb_url is None,
    {
        ItemMetadata {
            title: None,
            original_title: None,
            sort_title: None,
            overview: None,
            tagline: None,
            year: None,
            premiere_date: None,
            end_date: None,
            runtime_minutes: None,
            community_rating_milli: None,
            official_rating: None,
            genres: None,
            studios: None,
            people: None,
            poster_url: None,
            backdrop_url: None,
            logo_url: None,
            thumb_url: None,
        }
    }
}

/// Whether the provider's value replaces the current one.
pub open spec fn take_provider<T>(cur: Option<T>, prov: Option<T>, locked: bool) -> bool {
    prov is Some && !locked && (cur is None || cur != prov)
}

/// The field after the merge.
pub open spec fn merged_value<T>(cur: Option<T>, prov: Option<T>, locked: bool) -> Option<T> {
    if take_provider(cur, prov, locked) {
        prov
    } else {
        cur
    }
}

/// The merged metadata, field by field.
pub open spec fn merge_spec(cur: MetadataView, prov: MetadataView, locked: Seq<Seq<char>>) -> MetadataView {
    MetadataView {
        title: merged_value(cur.title, prov.title, locked.contains("title"@)),
        original_title: merged_value(cur.original_title, prov.original_title, locked.contains("original_title"@)),
        sort_title: merged_value(cur.sort_title, prov.sort_title, locked.contains("sort_title"@)),
        overview: merged_value(cur.overview, prov.overview, locked.contains("overview"@)),
        tagline: merged_value(cur.tagline, prov.tagline, locked.contains("tagline"@)),
        year: merged_value(cur.year, prov.year, locked.contains("year"@)),
        premiere_date: merged_value(cur.premiere_date, prov.premiere_date, locked.contains("premiere_date"@)),
        end_date: merged_value(cur.end_date, prov.end_date, locked.contains("end_date"@)),
        runtime_minutes: merged_value(cur.runtime_minutes, prov.runtime_minutes, locked.contains("runtime_minutes"@)),
        community_rating_milli: merged_value(cur.community_rating_milli, prov.community_rating_milli, locked.contains("community_rating_milli"@)),
        official_rating: merged_value(cur.official_rating, prov.official_rating, locked.contains("official_rating"@)),
        genres: merged_value(cur.genres, prov.genres, locked.contains("genres"@)),
        studios: merged_value(cur.studios, prov.studios, locked.contains("studios"@)),
        people: merged_value(cur.people, prov.people, locked.contains("people"@)),
        poster_url: merged_value(cur.poster_url, prov.poster_url, locked.contains("poster_url"@)),
        backdrop_url: merged_value(cur.backdrop_url, prov.backdrop_url, locked.contains("backdrop_url"@)),
        logo_url: merged_value(cur.logo_url, prov.logo_url, locked.contains("logo_url"@)),
        thumb_url: merged_value(cur.thumb_url, prov.thumb_url, locked.contains("thumb_url"@)),
    }
}

/// The names of the fields the merge takes from the provider, in field
/// order.
pub open spec fn updated_fields_spec(cur: MetadataView, prov: MetadataView, locked: Seq<Seq<char>>) -> Seq<Seq<char>> {
    let e0: Seq<Seq<char>> = if take_provider(cur.title, prov.title, locked.contains("title"@)) {
        Seq::empty().push("title"@)
    } else {
        Seq::empty()
    };
    let e1: Seq<Seq<char>> = if take_provider(cur.original_title, prov.original_title, locked.contains("original_title"@)) {
        e0.push("original_title"@)
    } else {
        e0
    };
    let e2: Seq<Seq<char>> = if take_provider(cur.sort_title, prov.sort_title, locked.contains("sort_title"@)) {
        e1.push("sort_title"@)
    } else {
        e1
    };
    let e3: Seq<Seq<char>> = if take_provider(cur.overview, prov.overview, locked.contains("overview"@)) {
        e2.push("overview"@)
    } else {
        e2
    };
    let e4: Seq<Seq<char>> = if take_provider(cur.tagline, prov.tagline, locked.contains("tagline"@)) {
        e3.push("tagline"@)
    } else {
        e3
    };
    let e5: Seq<Seq<char>> = if take_provider(cur.year, prov.year, locked.contains("year"@)) {
        e4.push("year"@)
    } else {
        e4
    };
    let e6: Seq<Seq<char>> = if take_provider(cur.premiere_date, prov.premiere_date, locked.contains("premiere_date"@)) {
        e5.push("premiere_date"@)
    } else {
        e5
    };
    let e7: Seq<Seq<char>> = if take_provider(cur.end_date, prov.end_date, locked.contains("end_date"@)) {
        e6.push("end_date"@)
    } else {
        e6
    };
    let e8: Seq<Seq<char>> = if take_provider(cur.runtime_minutes, prov.runtime_minutes, locked.contains("runtime_minutes"@)) {
        e7.push("runtime_minutes"@)
    } else {
        e7
    };
    let e9: Seq<Seq<char>> = if take_provider(cur.community_rating_milli, prov.community_rating_milli, locked.contains("community_rating_milli"@)) {
        e8.push("community_rating_milli"@)
    } else {
        e8
    };
    let e10: Seq<Seq<char>> = if take_provider(cur.official_rating, prov.official_rating, locked.contains("official_rating"@)) {
        e9.push("official_rating"@)
    } else {
        e9
    };
    let e11: Seq<Seq<char>> = if take_provider(cur.genres, prov.genres, locked.contains("genres"@)) {
        e10.push("genres"@)
    } else {
        e10
    };
    let e12: Seq<Seq<char>> = if take_provider(cur.studios, prov.studios, locked.contains("studios"@)) {
        e11.push("studios"@)
    } else {
        e11
    };
    let e13: Seq<Seq<char>> = if take_provider(cur.people, prov.people, locked.contains("people"@)) {
        e12.push("people"@)
    } else {
        e12
    };
    let e14: Seq<Seq<char>> = if take_provider(cur.poster_url, prov.poster_url, locked.contains("poster_url"@)) {
        e13.push("poster_url"@)
    } else {
        e13
    };
    let e15: Seq<Seq<char>> = if take_provider(cur.backdrop_url, prov.backdrop_url, locked.contains("backdrop_url"@)) {
        e14.push("backdrop_url"@)
    } else {
        e14
    };
    let e16: Seq<Seq<char>> = if take_provider(cur.logo_url, prov.logo_url, locked.contains("logo_url"@)) {
        e15.push("logo_url"@)
    } else {
        e15
    };
    let e17: Seq<Seq<char>> = if take_provider(cur.thumb_url, prov.thumb_url, locked.contains("thumb_url"@)) {
        e16.push("thumb_url"@)
    } else {
        e16
    };
    e17
}

pub open spec fn field_views(v: Seq<String>) -> Seq<Seq<char>> {
    v.map_values(|s: String| s@)
}

/// The merge outcome: the merged metadata and which fields were taken from
/// the provider.
pub struct MergeResult {
    pub metadata: ItemMetadata,
    pub updated_fields: Vec<String>,
}

/// Merge provider metadata over the current metadata, respecting the
/// locked fields: a locked field keeps its current value whatever the
/// provider says.
#[verifier::rlimit(100)]
pub fn merge_metadata(current: &ItemMetadata, provider: &ItemMetadata, locked: &Vec<String>) -> (r:
    MergeResult)
    ensures
        r.metadata@ == merge_spec(current@, provider@, field_views(locked@)),
        field_views(r.updated_fields@) == updated_fields_spec(
            current@,
            provider@,
            field_views(locked@),
        ),
{
    let ghost gcur = current@;
    let ghost gprov = provider@;
    let ghost glocked = field_views(locked@);
    let mut updated: Vec<String> = Vec::new();
    proof {
        assert(field_views(updated@) =~= Seq::<Seq<char>>::empty());
    }
    let f_title = merge_str_field(&current.title, &provider.title, locked, "title", &mut updated);
    let f_original_title = merge_str_field(&current.original_title, &provider.original_title, locked, "original_title", &mut updated);
    let f_sort_title = merge_str_field(&current.sort_title, &provider.sort_title, locked, "sort_title", &mut updated);
    let f_overview = merge_str_field(&current.overview, &provider.overview, locked, "overview", &mut updated);
    let f_tagline = merge_str_field(&current.tagline, &provider.tagline, locked, "tagline", &mut updated);
    let f_year = merge_i64_field(&current.year, &provider.year, locked, "year", &mut updated);
    let f_premiere_date = merge_str_field(&current.premiere_date, &provider.premiere_date, locked, "premiere_date", &mut updated);
    let f_end_date = merge_str_field(&current.end_date, &provider.end_date, locked, "end_date", &mut updated);
    let f_runtime_minutes = merge_i64_field(&current.runtime_minutes, &provider.runtime_minutes, locked, "runtime_minutes", &mut updated);
    let f_community_rating_milli = merge_i64_field(&current.community_rating_milli, &provider.community_rating_milli, locked, "community_rating_milli", &mut updated);
    let f_official_rating = merge_str_field(&current.official_rating, &provider.official_rating, locked, "official_rating", &mut updated);
    let f_genres = merge_list_field(&current.genres, &provider.genres, locked, "genres", &mut updated);
    let f_studios = merge_list_field(&current.studios, &provider.studios, locked, "studios", &mut updated);
    let f_people = merge_people_field(&current.people, &provider.people, locked, "people", &mut updated);
    let f_poster_url = merge_str_field(&current.poster_url, &provider.poster_url, locked, "poster_url", &mut updated);
    let f_backdrop_url = merge_str_field(&current.backdrop_url, &provider.backdrop_url, locked, "backdrop_url", &mut updated);
    let f_logo_url = merge_str_field(&current.logo_url, &provider.logo_url, locked, "logo_url", &mut updated);
    let f_thumb_url = merge_str_field(&current.thumb_url, &provider.thumb_url, locked, "thumb_url", &mut updated);
    let merged = ItemMetadata {
            title: f_title,
            original_title: f_original_title,
            sort_title: f_sort_title,
            overview: f_overview,
            tagline: f_tagline,
            year: f_year,
            premiere_date: f_premiere_date,
            end_date: f_end_date,
            runtime_minutes: f_runtime_minutes,
            community_rating_milli: f_community_rating_milli,
            official_rating: f_official_rating,
            genres: f_genres,
            studios: f_studios,
            people: f_people,
            poster_url: f_poster_url,
            backdrop_url: f_backdrop_url,
            logo_url: f_logo_url,
            thumb_url: f_thumb_url,
    };
    proof {
        assert(merged@ == merge_spec(gcur, gprov, glocked));
        assert(field_views(updated@) == updated_fields_spec(gcur, gprov, glocked));
    }
    MergeResult { metadata: merged, updated_fields: updated }
}

/// Merge one text field, recording its name when the provider's value is
/// taken.
fn merge_str_field(
    cur: &Option<String>,
    prov: &Option<String>,
    locked: &Vec<String>,
    name: &str,
    updated: &mut Vec<String>,
) -> (r: Option<String>)
    ensures
        opt_str_view(r) == merged_value(
            opt_str_view(*cur),
            opt_str_view(*prov),
            field_views(locked@).contains(name@),
        ),
        field_views(final(updated)@) == (if take_provider(
            opt_str_view(*cur),
            opt_str_view(*prov),
            field_views(locked@).contains(name@),
        ) {
            field_views(old(updated)@).push(name@)
        } else {
            field_views(old(updated)@)
        }),
{
    let lk = locked_has(locked, name);
    if prov.is_some() && !lk && (cur.is_none() || !opt_str_eq(cur, prov)) {
        updated.push(String::from_str(name));
        proof {
            assert(field_views(updated@) =~= field_views(old(updated)@).push(name@));
        }
        clone_opt_str(prov)
    } else {
        clone_opt_str(cur)
    }
}

/// Merge one integer field.
fn merge_i64_field(
    cur: &Option<i64>,
    prov: &Option<i64>,
    locked: &Vec<String>,
    name: &str,
    updated: &mut Vec<String>,
) -> (r: Option<i64>)
    ensures
        r == merged_value(*cur, *prov, field_views(locked@).contains(name@)),
        field_views(final(updated)@) == (if take_provider(
            *cur,
            *prov,
            field_views(locked@).contains(name@),
        ) {
            field_views(old(updated)@).push(name@)
        } else {
            field_views(old(updated)@)
        }),
{
    let lk = locked_has(locked, name);
    if prov.is_some() && !lk && (cur.is_none() || !opt_i64_eq(cur, prov)) {
        updated.push(String::from_str(name));
        proof {
            assert(field_views(updated@) =~= field_views(old(updated)@).push(name@));
        }
        clone_opt_i64(prov)
    } else {
        clone_opt_i64(cur)
    }
}

/// Merge one text-list field.
fn merge_list_field(
    cur: &Option<Vec<String>>,
    prov: &Option<Vec<String>>,
    locked: &Vec<String>,
    name: &str,
    updated: &mut Vec<String>,
) -> (r: Option<Vec<String>>)
    ensures
        opt_list_view(r) == merged_value(
            opt_list_view(*cur),
            opt_list_view(*prov),
            field_views(locked@).contains(name@),
        ),
        field_views(final(updated)@) == (if take_provider(
            opt_list_view(*cur),
            opt_list_view(*prov),
            field_views(locked@).contains(name@),
        ) {
            field_views(old(updated)@).push(name@)
        } else {
            field_views(old(updated)@)
        }),
{
    let lk = locked_has(locked, name);
    if prov.is_some() && !lk && (cur.is_none() || !opt_list_eq(cur, prov)) {
        updated.push(String::from_str(name));
        proof {
            assert(field_views(updated@) =~= field_views(old(updated)@).push(name@));
        }
        clone_opt_list(prov)
    } else {
        clone_opt_list(cur)
    }
}

/// Merge the credited-people field.
fn merge_people_field(
    cur: &Option<Vec<PersonInfo>>,
    prov: &Option<Vec<PersonInfo>>,
    locked: &Vec<String>,
    name: &str,
    updated: &mut Vec<String>,
) -> (r: Option<Vec<PersonInfo>>)
    ensures
        opt_people_view(r) == merged_value(
            opt_people_view(*cur),
            opt_people_view(*prov),
            field_views(locked@).contains(name@),
        ),
        field_views(final(updated)@) == (if take_provider(
            opt_people_view(*cur),
            opt_people_view(*prov),
            field_views(locked@).contains(name@),
        ) {
            field_views(old(updated)@).push(name@)
        } else {
            field_views(old(updated)@)
        }),
{
    let lk = locked_has(locked, name);
    if prov.is_some() && !lk && (cur.is_none() || !opt_people_eq(cur, prov)) {
        updated.push(String::from_str(name));
        proof {
            assert(field_views(updated@) =~= field_views(old(updated)@).push(name@));
        }
        clone_opt_people(prov)
    } else {
        clone_opt_people(cur)
    }
}

/// Whether a field name is locked.
fn locked_has(locked: &Vec<String>, name: &str) -> (r: bool)
    ensures
        r == field_views(locked@).contains(name@),
{
    let n: usize = locked.len();
    let mut i: usize = 0;
    while i < n
        invariant
            0 <= i <= n,
            n == locked@.len(),
            forall|j: int| 0 <= j < i ==> (#[trigger] locked@[j])@ != name@,
        decreases n - i,
    {
        proof {
            assert(field_views(locked@)[i as int] == locked@[i as int]@);
        }
        if str_eq(locked[i].as_str(), name) {
            proof {
                assert(field_views(locked@)[i as int] == name@);
            }
            return true;
        }
        i += 1;
    }
    proof {
        if field_views(locked@).contains(name@) {
            let m = field_views(locked@);
            let w = choose|w: int| 0 <= w < m.len() && m[w] == name@;
            assert(locked@[w]@ == name@);
        }
    }
    false
}

// ─── field-wise copies and comparisons ───────────────────────────────────

fn clone_opt_str(o: &Option<String>) -> (r: Option<String>)
    ensures
        opt_str_view(r) == opt_str_view(*o),
{
    match o {
        Some(s) => Some(s.clone()),
        None => None,
    }
}

fn clone_opt_i64(o: &Option<i64>) -> (r: Option<i64>)
    ensures
        r == *o,
{
    match o {
        Some(x) => Some(*x),
        None => None,
    }
}

fn clone_str_list(v: &Vec<String>) -> (r: Vec<String>)
    ensures
        r@.map_values(|s: String| s@) == v@.map_values(|s: String| s@),
{
    let n: usize = v.len();
    let mut out: Vec<String> = Vec::new();
    let mut i: usize = 0;
    while i < n
        invariant
            0 <= i <= n,
            n == v@.len(),
            out@.len() == i,
            forall|j: int| 0 <= j < i ==> (#[trigger] out@[j])@ == v@[j]@,
        decreases n - i,
    {
        out.push(v[i].clone());
        i += 1;
    }
    proof {
        assert(out@.map_values(|s: String| s@) =~= v@.map_values(|s: String| s@));
    }
    out
}

fn clone_opt_list(o: &Option<Vec<String>>) -> (r: Option<Vec<String>>)
    ensures
        opt_list_view(r) == opt_list_view(*o),
{
    match o {
        Some(v) => Some(clone_str_list(v)),
        None => None,
    }
}

fn dup_person(p: &PersonInfo) -> (r: PersonInfo)
    ensures
        r@ == p@,
{
    PersonInfo {
        name: p.name.clone(),
        role: p.role.clone(),
        character: clone_opt_str(&p.character),
        thumb_url: clone_opt_str(&p.thumb_url),
    }
}

fn clone_people(v: &Vec<PersonInfo>) -> (r: Vec<PersonInfo>)
    ensures
        r@.map_values(|p: PersonInfo| p@) == v@.map_values(|p: PersonInfo| p@),
{
    let n: usize = v.len();
    let mut out: Vec<PersonInfo> = Vec::new();
    let mut i: usize = 0;
    while i < n
        invariant
            0 <= i <= n,
            n == v@.len(),
            out@.len() == i,
            forall|j: int| 0 <= j < i ==> (#[trigger] out@[j])@ == v@[j]@,
        decreases n - i,
    {
        out.push(dup_person(&v[i]));
        i += 1;
    }
    proof {
        assert(out@.map_values(|p: PersonInfo| p@) =~= v@.map_values(|p: PersonInfo| p@));
    }
    out
}

fn clone_opt_people(o: &Option<Vec<PersonInfo>>) -> (r: Option<Vec<PersonInfo>>)
    ensures
        opt_people_view(r) == opt_people_view(*o),
{
    match o {
        Some(v) => Some(clone_people(v)),
        None => None,
    }
}

/// A field-wise copy of metadata.
pub fn dup_metadata(m: &ItemMetadata) -> (r: ItemMetadata)
    ensures
        r@ == m@,
{
    ItemMetadata {
        title: clone_opt_str(&m.title),
        original_title: clone_opt_str(&m.original_title),
        sort_title: clone_opt_str(&m.sort_title),
        overview: clone_opt_str(&m.overview),
        tagline: clone_opt_str(&m.tagline),
        year: clone_opt_i64(&m.year),
        premiere_date: clone_opt_str(&m.premiere_date),
        end_date: clone_opt_str(&m.end_date),
        runtime_minutes: clone_opt_i64(&m.runtime_minutes),
        community_rating_milli: clone_opt_i64(&m.community_rating_milli),
        official_rating: clone_opt_str(&m.official_rating),
        genres: clone_opt_list(&m.genres),
        studios: clone_opt_list(&m.studios),
        people: clone_opt_people(&m.people),
        poster_url: clone_opt_str(&m.poster_url),
        backdrop_url: clone_opt_str(&m.backdrop_url),
        logo_url: clone_opt_str(&m.logo_url),
        thumb_url: clone_opt_str(&m.thumb_url),
    }
}

fn opt_str_eq(a: &Option<String>, b: &Option<String>) -> (r: bool)
    ensures
        r == (opt_str_view(*a) == opt_str_view(*b)),
{
    match (a, b) {
        (Some(x), Some(y)) => str_eq(x.as_str(), y.as_str()),
        (None, None) => true,
        _ => false,
    }
}

fn opt_i64_eq(a: &Option<i64>, b: &Option<i64>) -> (r: bool)
    ensures
        r == (*a == *b),
{
    match (a, b) {
        (Some(x), Some(y)) => *x == *y,
        (None, None) => true,
        _ => false,
    }
}

fn str_list_eq(a: &Vec<String>, b: &Vec<String>) -> (r: bool)
    ensures
        r == (a@.map_values(|s: String| s@) == b@.map_values(|s: String| s@)),
{
    if a.len() != b.len() {
        proof {
            assert(a@.map_values(|s: String| s@).len() != b@.map_values(|s: String| s@).len());
        }
        return false;
    }
    let n: usize = a.len();
    let mut i: usize = 0;
    while i < n
        invariant
            0 <= i <= n,
            n == a@.len(),
            a@.len() == b@.len(),
            forall|j: int| 0 <= j < i ==> (#[trigger] a@[j])@ == b@[j]@,
        decreases n - i,
    {
        if !str_eq(a[i].as_str(), b[i].as_str()) {
            proof {
                assert(a@.map_values(|s: String| s@)[i as int] != b@.map_values(
                    |s: String| s@,
                )[i as int]);
            }
            return false;
        }
        i += 1;
    }
    proof {
        assert(a@.map_values(|s: String| s@) =~= b@.map_values(|s: String| s@));
    }
    true
}

fn opt_list_eq(a: &Option<Vec<String>>, b: &Option<Vec<String>>) -> (r: bool)
    ensures
        r == (opt_list_view(*a) == opt_list_view(*b)),
{
    match (a, b) {
        (Some(x), Some(y)) => str_list_eq(x, y),
        (None, None) => true,
        _ => false,
    }
}

fn person_eq(a: &PersonInfo, b: &PersonInfo) -> (r: bool)
    ensures
        r == (a@ == b@),
{
    str_eq(a.name.as_str(), b.name.as_str()) && str_eq(a.role.as_str(), b.role.as_str())
        && opt_str_eq(&a.character, &b.character) && opt_str_eq(&a.thumb_url, &b.thumb_url)
}

fn people_list_eq(a: &Vec<PersonInfo>, b: &Vec<PersonInfo>) -> (r: bool)
    ensures
        r == (a@.map_values(|p: PersonInfo| p@) == b@.map_values(|p: PersonInfo| p@)),
{
    if a.len() != b.len() {
        proof {
            assert(a@.map_values(|p: PersonInfo| p@).len() != b@.map_values(
                |p: PersonInfo| p@,
            ).len());
        }
        return false;
    }
    let n: usize = a.len();
    let mut i: usize = 0;
    while i < n
        invariant
            0 <= i <= n,
            n == a@.len(),
            a@.len() == b@.len(),
            forall|j: int| 0 <= j < i ==> (#[trigger] a@[j])@ == b@[j]@,
        decreases n - i,
    {
        if !person_eq(&a[i], &b[i]) {
            proof {
                assert(a@.map_values(|p: PersonInfo| p@)[i as int] != b@.map_values(
                    |p: PersonInfo| p@,
                )[i as int]);
            }
            return false;
        }
        i += 1;
    }
    proof {
        assert(a@.map_values(|p: PersonInfo| p@) =~= b@.map_values(|p: PersonInfo| p@));
    }
    true
}

fn opt_people_eq(a: &Option<Vec<PersonInfo>>, b: &Option<Vec<PersonInfo>>) -> (r: bool)
    ensures
        r == (opt_people_view(*a) == opt_people_view(*b)),
{
    match (a, b) {
        (Some(x), Some(y)) => people_list_eq(x, y),
        (None, None) => true,
        _ => false,
    }
}

} // verus!

//! Matching provider search results to library items: titles are compared
//! after Unicode case folding with everything but letters and digits
//! dropped, and a year match is preferred.

use crate::merge::{opt_str_view, ItemMetadata};
use crate::strutil::chars_of;
use vstd::prelude::*;
use vstd::string::StringExecFns;

verus! {

/// One hit of a provider search.
#[derive(Debug, Clone)]
pub struct SearchResult {
    pub provider_id: String,
    pub title: String,
    pub year: Option<i64>,
    pub overview: Option<String>,
    pub poster_url: Option<String>,
}

/// Artwork fields read off metadata.
#[derive(Debug, Clone)]
pub struct Artwork {
    pub poster: Option<String>,
    pub backdrop: Option<String>,
    pub logo: Option<String>,
    pub thumb: Option<String>,
}

/// The artwork a metadata record carries; no metadata means no artwork.
pub fn artwork_from_metadata(metadata: Option<&ItemMetadata>) -> (r: Artwork)
    ensures
        match metadata {
            Some(m) => opt_str_view(r.poster) == opt_str_view(m.poster_url) && opt_str_view(
                r.backdrop,
            ) == opt_str_view(m.backdrop_url) && opt_str_view(r.logo) == opt_str_view(m.logo_url)
                && opt_str_view(r.thumb) == opt_str_view(m.thumb_url),
            None => r.poster is None && r.backdrop is None && r.logo is None && r.thumb is None,
        },
{
    match metadata {
        Some(m) => Artwork {
            poster: copy_opt(&m.poster_url),
            backdrop: copy_opt(&m.backdrop_url),
            logo: copy_opt(&m.logo_url),
            thumb: copy_opt(&m.thumb_url),
        },
        None => Artwork { poster: None, backdrop: None, logo: None, thumb: None },
    }
}

fn copy_opt(o: &Option<String>) -> (r: Option<String>)
    ensures
        opt_str_view(r) == opt_str_view(*o),
{
    match o {
        Some(s) => Some(s.clone()),
        None => None,
    }
}

// ─── title normalisation ─────────────────────────────────────────────────

/// Whether a character counts as Unicode alphanumeric: a function of the
/// character alone.
pub uninterp spec fn unicode_alphanumeric(c: char) -> bool;

/// The Unicode lowercase expansion of a character: a function of the
/// character alone.
pub uninterp spec fn unicode_lower_of(c: char) -> Seq<char>;

/// Relies on `char::is_alphanumeric`: the Unicode alphanumeric classes.
#[verifier::external_body]
fn char_is_alphanumeric(c: char) -> (r: bool)
    ensures
        r == unicode_alphanumeric(c),
{
    c.is_alphanumeric()
}

/// Relies on `char::to_lowercase`: the Unicode lowercase mapping, which may
/// expand one character to several.
#[verifier::external_body]
fn char_to_lowercase(c: char) -> (r: Vec<char>)
    ensures
        r@ == unicode_lower_of(c),
{
    c.to_lowercase().collect()
}

pub open spec fn alnump() -> spec_fn(char) -> bool {
    |c: char| unicode_alphanumeric(c)
}

pub open spec fn lowerer() -> spec_fn(char) -> Seq<char> {
    |c: char| unicode_lower_of(c)
}

/// A title reduced for matching: alphanumeric characters only, case folded.
pub open spec fn normalize_title_spec(s: Seq<char>) -> Seq<char> {
    s.filter(alnump()).map_values(lowerer()).flatten()
}

/// Reduce a title for matching.
pub fn normalize_title_for_match(title: &str) -> (r: String)
    ensures
        r@ == normalize_title_spec(title@),
{
    let v = chars_of(title);
    let n: usize = v.len();
    let mut out: Vec<char> = Vec::new();
    let mut i: usize = 0;
    proof {
        assert(v@.take(0).filter(alnump()).map_values(lowerer()) =~= Seq::<Seq<char>>::empty());
        assert(out@ =~= Seq::<Seq<char>>::empty().flatten());
    }
    while i < n
        invariant
            0 <= i <= n,
            n == v@.len(),
            v@ == title@,
            out@ == v@.take(i as int).filter(alnump()).map_values(lowerer()).flatten(),
        decreases n - i,
    {
        proof {
            crate::strutil::lemma_filter_take_step(v@, i as int, alnump());
        }
        let ghost old_out = out@;
        if char_is_alphanumeric(v[i]) {
            let mut low = char_to_lowercase(v[i]);
            let ghost glow = low@;
            out.append(&mut low);
            proof {
                let pre = v@.take(i as int).filter(alnump()).map_values(lowerer());
                assert(v@.take(i + 1 as int).filter(alnump()).map_values(lowerer()) =~= pre.push(
                    glow,
                ));
                pre.lemma_flatten_push(glow);
                assert(out@ =~= pre.flatten() + glow);
            }
        }
        i += 1;
    }
    proof {
        assert(v@.take(n as int) =~= v@);
    }
    crate::strutil::string_from_chars(&out)
}

// ─── picking a search hit ────────────────────────────────────────────────

pub open spec fn hit_title_matches(hit: SearchResult, wanted: Seq<char>) -> bool {
    normalize_title_spec(hit.title@) == wanted
}

pub open spec fn hit_year_matches(hit: SearchResult, year: Option<i64>) -> bool {
    year is Some && hit.year == year
}

/// The first index at or after `i` satisfying the given match level:
/// title and year, title alone, or year alone.
pub open spec fn find_hit_from(
    results: Seq<SearchResult>,
    i: int,
    wanted: Seq<char>,
    year: Option<i64>,
    need_title: bool,
    need_year: bool,
) -> Option<int>
    decreases results.len() - i,
{
    if i < 0 || i >= results.len() {
        None
    } else if (!need_title || hit_title_matches(results[i], wanted)) && (!need_year
        || hit_year_matches(results[i], year)) {
        Some(i)
    } else {
        find_hit_from(results, i + 1, wanted, year, need_title, need_year)
    }
}

/// The hit the picker takes: the first result matching normalized title and
/// year, else the first matching the title, else the first matching the
/// year, else the first result; no results, no hit.
pub open spec fn pick_best_spec(
    results: Seq<SearchResult>,
    item_title: Seq<char>,
    item_year: Option<i64>,
) -> Option<int> {
    let wanted = normalize_title_spec(item_title);
    if results.len() == 0 {
        None
    } else {
        match find_hit_from(results, 0, wanted, item_year, true, true) {
            Some(k) => Some(k),
            None => match find_hit_from(results, 0, wanted, item_year, true, false) {
                Some(k) => Some(k),
                None => match find_hit_from(results, 0, wanted, item_year, false, true) {
                    Some(k) => Some(k),
                    None => Some(0),
                },
            },
        }
    }
}

/// Pick the provider id of the best search hit for an item.
pub fn pick_best_search_provider_id(
    item_title: &str,
    item_year: Option<i64>,
    results: &Vec<SearchResult>,
) -> (r: Option<String>)
    ensures
        match (r, pick_best_spec(results@, item_title@, item_year)) {
            (Some(id), Some(k)) => id@ == results@[k].provider_id@,
            (None, None) => true,
            _ => false,
        },
{
    if results.len() == 0 {
        return None;
    }
    let wanted = normalize_title_for_match(item_title);
    match find_hit(results, &wanted, item_year, true, true) {
        Some(k) => Some(results[k].provider_id.clone()),
        None => match find_hit(results, &wanted, item_year, true, false) {
            Some(k) => Some(results[k].provider_id.clone()),
            None => match find_hit(results, &wanted, item_year, false, true) {
                Some(k) => Some(results[k].provider_id.clone()),
                None => Some(results[0].provider_id.clone()),
            },
        },
    }
}

/// Scan for the first hit at the given match level. `wanted` carries the
/// already-normalized item title.
fn find_hit(
    results: &Vec<SearchResult>,
    wanted: &String,
    year: Option<i64>,
    need_title: bool,
    need_year: bool,
) -> (r: Option<usize>)
    ensures
        match r {
            Some(k) => find_hit_from(results@, 0, wanted@, year, need_title, need_year) == Some(
                k as int,
            ) && k < results@.len(),
            None => find_hit_from(results@, 0, wanted@, year, need_title, need_year) is None,
        },
{
    let n: usize = results.len();
    let mut i: usize = 0;
    while i < n
        invariant
            0 <= i <= n,
            n == results@.len(),
            find_hit_from(results@, 0, wanted@, year, need_title, need_year) == find_hit_from(
                results@,
                i as int,
                wanted@,
                year,
                need_title,
                need_year,
            ),
        decreases n - i,
    {
        let title_ok: bool = if need_title {
            let norm = normalize_title_for_match(results[i].title.as_str());
            crate::strutil::str_eq(norm.as_str(), wanted.as_str())
        } else {
            true
        };
        let year_ok: bool = if need_year {
            match (results[i].year, year) {
                (Some(a), Some(b)) => a == b,
                _ => false,
            }
        } else {
            true
        };
        if title_ok && year_ok {
            return Some(i);
        }
        i += 1;
    }
    None
}

} // verus!

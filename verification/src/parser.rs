//! Media filename parsing: movie and episode patterns, ignore rules, video
//! extensions, and provider-ID tags.
//!
//! The filename grammar is stated as spec functions over character sequences.
//! The episode patterns are, in order of precedence:
//! `S<season>E<episode>`, `<season>x<episode>`, and
//! `Season <n> Episode <m>` (all case-insensitive); movie patterns are
//! `Title (YYYY)` and `Title.YYYY.` with the year of the second form
//! restricted to 1900..=2100. Character classes are modelled over ASCII:
//! `\d` as `'0'..='9'`, `\s` as ASCII whitespace, `\w` as ASCII letters,
//! digits and `_`.

use crate::strutil::{
    all_digits, chars_of, dec_val, exec_is_digit, exec_is_space, exec_is_word_char,
    exec_last_index_of, exec_lower_char, exec_trim, first_match_from, is_digit_char, is_space_char,
    is_suffix_of, is_word_char, last_index_of, lemma_dec_val_bound, lemma_run_len_chars,
    lower_char, lower_seq, parse_u64_range, pow10, run_len, string_from_chars, sub_chars,
    trim_spec,
};
use vstd::prelude::*;

verus! {

// ─── public result types ─────────────────────────────────────────────────

/// Parsed movie info from a filename/folder.
#[derive(Debug, Clone, PartialEq, Eq)]
pub struct MovieInfo {
    pub title: String,
    pub year: Option<u16>,
}

/// Parsed episode info from a filename.
#[derive(Debug, Clone, PartialEq, Eq)]
pub struct EpisodeInfo {
    pub series_title: String,
    pub season: u32,
    pub episode: u32,
    pub episode_title: Option<String>,
}

/// Result of parsing a media filename.
#[derive(Debug, Clone, PartialEq, Eq)]
pub enum ParsedMedia {
    Movie(MovieInfo),
    Episode(EpisodeInfo),
    Unknown(String),
}

/// Mathematical form of a parsed movie.
pub struct MovieParse {
    pub title: Seq<char>,
    pub year: Option<int>,
}

/// Mathematical form of a parsed episode.
pub struct EpisodeParse {
    pub series_title: Seq<char>,
    pub season: int,
    pub episode: int,
    pub episode_title: Option<Seq<char>>,
}

/// Mathematical form of a parse result.
pub enum MediaParse {
    Movie(MovieParse),
    Episode(EpisodeParse),
    Unknown(Seq<char>),
}

impl View for MovieInfo {
    type V = MovieParse;

    open spec fn view(&self) -> MovieParse {
        MovieParse {
            title: self.title@,
            year: match self.year {
                Some(y) => Some(y as int),
                None => None,
            },
        }
    }
}

impl View for EpisodeInfo {
    type V = EpisodeParse;

    open spec fn view(&self) -> EpisodeParse {
        EpisodeParse {
            series_title: self.series_title@,
            season: self.season as int,
            episode: self.episode as int,
            episode_title: match self.episode_title {
                Some(t) => Some(t@),
                None => None,
            },
        }
    }
}

impl View for ParsedMedia {
    type V = MediaParse;

    open spec fn view(&self) -> MediaParse {
        match self {
            ParsedMedia::Movie(m) => MediaParse::Movie(m@),
            ParsedMedia::Episode(e) => MediaParse::Episode(e@),
            ParsedMedia::Unknown(s) => MediaParse::Unknown(s@),
        }
    }
}

// ─── character classes ───────────────────────────────────────────────────

pub open spec fn digitp() -> spec_fn(char) -> bool {
    |c: char| is_digit_char(c)
}

pub open spec fn spacep() -> spec_fn(char) -> bool {
    |c: char| is_space_char(c)
}

/// Characters trimmed off the front of an episode title.
pub open spec fn markp() -> spec_fn(char) -> bool {
    |c: char| c == '-' || c == '.' || c == ' ' || c == '_'
}

pub open spec fn wordp() -> spec_fn(char) -> bool {
    |c: char| is_word_char(c)
}

pub open spec fn nonbrp() -> spec_fn(char) -> bool {
    |c: char| c != ']'
}

enum CharClass {
    Digit,
    Space,
    Mark,
    Word,
    NonBracket,
}

spec fn class_pred(k: CharClass) -> spec_fn(char) -> bool {
    match k {
        CharClass::Digit => digitp(),
        CharClass::Space => spacep(),
        CharClass::Mark => markp(),
        CharClass::Word => wordp(),
        CharClass::NonBracket => nonbrp(),
    }
}

fn class_holds(k: &CharClass, c: char) -> (r: bool)
    ensures
        r == class_pred(*k)(c),
{
    match k {
        CharClass::Digit => exec_is_digit(c),
        CharClass::Space => exec_is_space(c),
        CharClass::Mark => c == '-' || c == '.' || c == ' ' || c == '_',
        CharClass::Word => exec_is_word_char(c),
        CharClass::NonBracket => c != ']',
    }
}

/// Length of the run of characters of class `k` starting at `i`.
fn class_run(v: &Vec<char>, i: usize, k: CharClass) -> (r: usize)
    requires
        i <= v@.len(),
    ensures
        i + r <= v@.len(),
        r == run_len(v@, i as int, class_pred(k)),
{
    let mut j: usize = i;
    while j < v.len() && class_holds(&k, v[j])
        invariant
            i <= j <= v@.len(),
            run_len(v@, i as int, class_pred(k)) == (j - i) + run_len(v@, j as int, class_pred(k)),
        decreases v.len() - j,
    {
        j += 1;
    }
    j - i
}

// ─── title cleaning ──────────────────────────────────────────────────────

pub open spec fn clean_char(c: char) -> char {
    if c == '.' || c == '_' {
        ' '
    } else {
        c
    }
}

/// A title after replacing dots and underscores with spaces and trimming.
pub open spec fn clean_title_spec(s: Seq<char>) -> Seq<char> {
    trim_spec(s.map_values(|c: char| clean_char(c)))
}

fn clean_title_chars(v: &Vec<char>) -> (r: Vec<char>)
    ensures
        r@ == clean_title_spec(v@),
{
    let mut mapped: Vec<char> = Vec::new();
    let mut i: usize = 0;
    while i < v.len()
        invariant
            0 <= i <= v@.len(),
            mapped@.len() == i,
            forall|j: int| 0 <= j < i ==> mapped@[j] == clean_char(v@[j]),
        decreases v.len() - i,
    {
        let c = v[i];
        if c == '.' || c == '_' {
            mapped.push(' ');
        } else {
            mapped.push(c);
        }
        i += 1;
    }
    proof {
        assert(mapped@ =~= v@.map_values(|c: char| clean_char(c)));
    }
    exec_trim(&mapped)
}

/// Clean up a title: replace dots/underscores with spaces, trim.
pub fn clean_title(raw: &str) -> (r: String)
    ensures
        r@ == clean_title_spec(raw@),
{
    let v = chars_of(raw);
    let cleaned = clean_title_chars(&v);
    string_from_chars(&cleaned)
}

// ─── episode pattern: SxxExx ─────────────────────────────────────────────

pub open spec fn sxxexx_at(s: Seq<char>, i: int) -> bool {
    let r = run_len(s, i + 1, digitp());
    &&& 0 <= i < s.len()
    &&& (s[i] == 'S' || s[i] == 's')
    &&& 1 <= r <= 2
    &&& i + 1 + r < s.len()
    &&& (s[i + 1 + r] == 'E' || s[i + 1 + r] == 'e')
    &&& run_len(s, i + 2 + r, digitp()) >= 1
}

pub open spec fn sxxexx_season_val(s: Seq<char>, i: int) -> int {
    let r = run_len(s, i + 1, digitp());
    dec_val(s.subrange(i + 1, i + 1 + r)) as int
}

pub open spec fn sxxexx_ep_start(s: Seq<char>, i: int) -> int {
    i + 2 + run_len(s, i + 1, digitp())
}

pub open spec fn sxxexx_ep_len(s: Seq<char>, i: int) -> int {
    let e = run_len(s, sxxexx_ep_start(s, i), digitp());
    if e <= 3 {
        e
    } else {
        3
    }
}

pub open spec fn sxxexx_end(s: Seq<char>, i: int) -> int {
    sxxexx_ep_start(s, i) + sxxexx_ep_len(s, i)
}

pub open spec fn sxxexx_episode_val(s: Seq<char>, i: int) -> int {
    dec_val(s.subrange(sxxexx_ep_start(s, i), sxxexx_end(s, i))) as int
}

pub open spec fn sxxexx_matcher() -> spec_fn(Seq<char>, int) -> bool {
    |s: Seq<char>, i: int| sxxexx_at(s, i)
}

fn check_sxxexx_at(v: &Vec<char>, i: usize) -> (r: bool)
    requires
        i < v@.len(),
    ensures
        r == sxxexx_at(v@, i as int),
{
    let n: usize = v.len();
    if !(v[i] == 'S' || v[i] == 's') {
        return false;
    }
    let r = class_run(v, i + 1, CharClass::Digit);
    if r < 1 || r > 2 {
        return false;
    }
    if i + 1 + r >= v.len() {
        return false;
    }
    if !(v[i + 1 + r] == 'E' || v[i + 1 + r] == 'e') {
        return false;
    }
    let e = class_run(v, i + 2 + r, CharClass::Digit);
    e >= 1
}

// ─── episode pattern: NxNN ───────────────────────────────────────────────

pub open spec fn xep2_at(s: Seq<char>, i: int) -> bool {
    &&& 0 <= i
    &&& i + 2 < s.len()
    &&& is_digit_char(s[i])
    &&& is_digit_char(s[i + 1])
    &&& (s[i + 2] == 'x' || s[i + 2] == 'X')
    &&& run_len(s, i + 3, digitp()) >= 2
}

pub open spec fn xep1_at(s: Seq<char>, i: int) -> bool {
    &&& 0 <= i
    &&& i + 1 < s.len()
    &&& is_digit_char(s[i])
    &&& (s[i + 1] == 'x' || s[i + 1] == 'X')
    &&& run_len(s, i + 2, digitp()) >= 2
}

pub open spec fn xep_at(s: Seq<char>, i: int) -> bool {
    xep2_at(s, i) || xep1_at(s, i)
}

/// Count of season digits taken at an `NxNN` match (greedy prefers two).
pub open spec fn xep_slen(s: Seq<char>, i: int) -> int {
    if xep2_at(s, i) {
        2
    } else {
        1
    }
}

pub open spec fn xep_season_val(s: Seq<char>, i: int) -> int {
    dec_val(s.subrange(i, i + xep_slen(s, i))) as int
}

pub open spec fn xep_ep_start(s: Seq<char>, i: int) -> int {
    i + xep_slen(s, i) + 1
}

pub open spec fn xep_ep_len(s: Seq<char>, i: int) -> int {
    let e = run_len(s, xep_ep_start(s, i), digitp());
    if e <= 3 {
        e
    } else {
        3
    }
}

pub open spec fn xep_episode_val(s: Seq<char>, i: int) -> int {
    dec_val(s.subrange(xep_ep_start(s, i), xep_ep_start(s, i) + xep_ep_len(s, i))) as int
}

pub open spec fn xep_matcher() -> spec_fn(Seq<char>, int) -> bool {
    |s: Seq<char>, i: int| xep_at(s, i)
}

fn check_xep2_at(v: &Vec<char>, i: usize) -> (r: bool)
    requires
        i < v@.len(),
    ensures
        r == xep2_at(v@, i as int),
{
    let n: usize = v.len();
    if i >= n - 1 || i + 2 >= n {
        return false;
    }
    if !exec_is_digit(v[i]) || !exec_is_digit(v[i + 1]) {
        return false;
    }
    if !(v[i + 2] == 'x' || v[i + 2] == 'X') {
        return false;
    }
    let e = class_run(v, i + 3, CharClass::Digit);
    e >= 2
}

fn check_xep1_at(v: &Vec<char>, i: usize) -> (r: bool)
    requires
        i < v@.len(),
    ensures
        r == xep1_at(v@, i as int),
{
    let n: usize = v.len();
    if i + 1 >= n {
        return false;
    }
    if !exec_is_digit(v[i]) {
        return false;
    }
    if !(v[i + 1] == 'x' || v[i + 1] == 'X') {
        return false;
    }
    let e = class_run(v, i + 2, CharClass::Digit);
    e >= 2
}

fn check_xep_at(v: &Vec<char>, i: usize) -> (r: bool)
    requires
        i < v@.len(),
    ensures
        r == xep_at(v@, i as int),
{
    check_xep2_at(v, i) || check_xep1_at(v, i)
}

// ─── episode pattern: Season N Episode M ─────────────────────────────────

/// `lit` matches `s` at `i` ignoring ASCII case.
pub open spec fn ci_match_at(s: Seq<char>, i: int, lit: Seq<char>) -> bool {
    &&& i >= 0
    &&& i + lit.len() <= s.len()
    &&& lower_seq(s.subrange(i, i + lit.len())) == lower_seq(lit)
}

pub open spec fn sep_d1_start(s: Seq<char>, i: int) -> int {
    i + 6 + run_len(s, i + 6, spacep())
}

pub open spec fn sep_d1_len(s: Seq<char>, i: int) -> int {
    run_len(s, sep_d1_start(s, i), digitp())
}

pub open spec fn sep_word2(s: Seq<char>, i: int) -> int {
    let d1e = sep_d1_start(s, i) + sep_d1_len(s, i);
    d1e + run_len(s, d1e, spacep())
}

pub open spec fn sep_d2_start(s: Seq<char>, i: int) -> int {
    let w2e = sep_word2(s, i) + 7;
    w2e + run_len(s, w2e, spacep())
}

pub open spec fn sep_d2_len(s: Seq<char>, i: int) -> int {
    run_len(s, sep_d2_start(s, i), digitp())
}

pub open spec fn sep_at(s: Seq<char>, i: int) -> bool {
    &&& ci_match_at(s, i, "season"@)
    &&& run_len(s, i + 6, spacep()) >= 1
    &&& sep_d1_len(s, i) >= 1
    &&& {
        let d1e = sep_d1_start(s, i) + sep_d1_len(s, i);
        run_len(s, d1e, spacep()) >= 1
    }
    &&& ci_match_at(s, sep_word2(s, i), "episode"@)
    &&& {
        let w2e = sep_word2(s, i) + 7;
        run_len(s, w2e, spacep()) >= 1
    }
    &&& sep_d2_len(s, i) >= 1
}

pub open spec fn sep_season_val(s: Seq<char>, i: int) -> int {
    dec_val(s.subrange(sep_d1_start(s, i), sep_d1_start(s, i) + sep_d1_len(s, i))) as int
}

pub open spec fn sep_episode_val(s: Seq<char>, i: int) -> int {
    dec_val(s.subrange(sep_d2_start(s, i), sep_d2_start(s, i) + sep_d2_len(s, i))) as int
}

pub open spec fn sep_matcher() -> spec_fn(Seq<char>, int) -> bool {
    |s: Seq<char>, i: int| sep_at(s, i)
}

/// Case-insensitive match of `lit` at position `i`.
fn check_ci_match(v: &Vec<char>, i: usize, lit: &Vec<char>) -> (r: bool)
    requires
        i <= v@.len(),
    ensures
        r == ci_match_at(v@, i as int, lit@),
{
    let n: usize = v.len();
    if lit.len() > n - i {
        return false;
    }
    let mut k: usize = 0;
    while k < lit.len()
        invariant
            0 <= k <= lit@.len(),
            i + lit@.len() <= v@.len(),
            n == v@.len(),
            forall|j: int| 0 <= j < k ==> lower_char(v@[i + j]) == lower_char(lit@[j]),
        decreases lit.len() - k,
    {
        if exec_lower_char(v[i + k]) != exec_lower_char(lit[k]) {
            proof {
                let sub = v@.subrange(i as int, i + lit@.len());
                assert(lower_seq(sub)[k as int] == lower_char(v@[i + k]));
                assert(lower_seq(lit@)[k as int] == lower_char(lit@[k as int]));
            }
            return false;
        }
        k += 1;
    }
    proof {
        let sub = v@.subrange(i as int, i + lit@.len());
        assert forall|j: int| 0 <= j < lit@.len() implies lower_seq(sub)[j] == lower_seq(lit@)[j] by {
            assert(lower_seq(sub)[j] == lower_char(v@[i + j]));
        }
        assert(lower_seq(sub) =~= lower_seq(lit@));
    }
    true
}

fn check_sep_at(v: &Vec<char>, i: usize, season_lit: &Vec<char>, episode_lit: &Vec<char>) -> (r:
    bool)
    requires
        i < v@.len(),
        season_lit@ == "season"@,
        episode_lit@ == "episode"@,
    ensures
        r == sep_at(v@, i as int),
{
    let n: usize = v.len();
    proof {
        reveal_strlit("season");
        reveal_strlit("episode");
    }
    if !check_ci_match(v, i, season_lit) {
        return false;
    }
    let p1 = class_run(v, i + 6, CharClass::Space);
    if p1 < 1 {
        return false;
    }
    let d1s = i + 6 + p1;
    let d1 = class_run(v, d1s, CharClass::Digit);
    if d1 < 1 {
        return false;
    }
    let p2 = class_run(v, d1s + d1, CharClass::Space);
    if p2 < 1 {
        return false;
    }
    let w2 = d1s + d1 + p2;
    if !check_ci_match(v, w2, episode_lit) {
        return false;
    }
    let p3 = class_run(v, w2 + 7, CharClass::Space);
    if p3 < 1 {
        return false;
    }
    let d2 = class_run(v, w2 + 7 + p3, CharClass::Digit);
    d2 >= 1
}

// ─── first-match scanning ────────────────────────────────────────────────

enum EpPattern {
    Sxxexx,
    Xep,
    Sep,
}

spec fn ep_matcher(p: EpPattern) -> spec_fn(Seq<char>, int) -> bool {
    match p {
        EpPattern::Sxxexx => sxxexx_matcher(),
        EpPattern::Xep => xep_matcher(),
        EpPattern::Sep => sep_matcher(),
    }
}

/// Scan left to right for the first match of the given episode pattern.
fn find_ep_pattern(v: &Vec<char>, p: EpPattern) -> (r: Option<usize>)
    ensures
        match r {
            Some(i) => first_match_from(v@, 0, ep_matcher(p)) == Some(i as int) && i < v@.len(),
            None => first_match_from(v@, 0, ep_matcher(p)) is None,
        },
{
    let season_lit = chars_of("season");
    let episode_lit = chars_of("episode");
    let mut i: usize = 0;
    while i < v.len()
        invariant
            0 <= i <= v@.len(),
            season_lit@ == "season"@,
            episode_lit@ == "episode"@,
            first_match_from(v@, 0, ep_matcher(p)) == first_match_from(v@, i as int, ep_matcher(p)),
        decreases v.len() - i,
    {
        let hit = match p {
            EpPattern::Sxxexx => check_sxxexx_at(v, i),
            EpPattern::Xep => check_xep_at(v, i),
            EpPattern::Sep => check_sep_at(v, i, &season_lit, &episode_lit),
        };
        if hit {
            return Some(i);
        }
        i += 1;
    }
    None
}

// ─── episode title text after the match ──────────────────────────────────

/// The episode title taken from the text right of an `SxxExx` match.
pub open spec fn episode_title_after(s: Seq<char>, end: int) -> Option<Seq<char>> {
    if s.len() - end > 1 {
        let m = run_len(s, end, markp());
        let t = clean_title_spec(s.subrange(end + m, s.len() as int));
        if t.len() == 0 {
            None
        } else {
            Some(t)
        }
    } else {
        None
    }
}

fn extract_episode_title(v: &Vec<char>, end: usize) -> (r: Option<String>)
    requires
        end <= v@.len(),
    ensures
        match (r, episode_title_after(v@, end as int)) {
            (Some(t), Some(g)) => t@ == g,
            (None, None) => true,
            _ => false,
        },
{
    if v.len() - end <= 1 {
        return None;
    }
    let m = class_run(v, end, CharClass::Mark);
    let rest = sub_chars(v, end + m, v.len());
    let t = clean_title_chars(&rest);
    if t.len() == 0 {
        None
    } else {
        Some(string_from_chars(&t))
    }
}

// ─── try_parse_episode ───────────────────────────────────────────────────

/// Mathematical form of `try_parse_episode`.
pub open spec fn try_parse_episode_spec(s: Seq<char>) -> Option<EpisodeParse> {
    match first_match_from(s, 0, sxxexx_matcher()) {
        Some(i) => Some(
            EpisodeParse {
                series_title: clean_title_spec(s.subrange(0, i)),
                season: sxxexx_season_val(s, i),
                episode: sxxexx_episode_val(s, i),
                episode_title: episode_title_after(s, sxxexx_end(s, i)),
            },
        ),
        None => match first_match_from(s, 0, xep_matcher()) {
            Some(i) => Some(
                EpisodeParse {
                    series_title: clean_title_spec(s.subrange(0, i)),
                    season: xep_season_val(s, i),
                    episode: xep_episode_val(s, i),
                    episode_title: None,
                },
            ),
            None => match first_match_from(s, 0, sep_matcher()) {
                Some(i) => if sep_season_val(s, i) > u32::MAX || sep_episode_val(s, i)
                    > u32::MAX {
                    None
                } else {
                    Some(
                        EpisodeParse {
                            series_title: clean_title_spec(s.subrange(0, i)),
                            season: sep_season_val(s, i),
                            episode: sep_episode_val(s, i),
                            episode_title: None,
                        },
                    )
                },
                None => None,
            },
        },
    }
}

/// Parse an episode pattern out of a filename stem.
pub fn try_parse_episode(stem: &str) -> (r: Option<EpisodeInfo>)
    ensures
        match r {
            Some(e) => try_parse_episode_spec(stem@) == Some(e@),
            None => try_parse_episode_spec(stem@) is None,
        },
{
    let v = chars_of(stem);
    try_parse_episode_chars(&v)
}

fn try_parse_episode_chars(v: &Vec<char>) -> (r: Option<EpisodeInfo>)
    ensures
        match r {
            Some(e) => try_parse_episode_spec(v@) == Some(e@),
            None => try_parse_episode_spec(v@) is None,
        },
{
    let n: usize = v.len();
    if let Some(i) = find_ep_pattern(v, EpPattern::Sxxexx) {
        proof {
            lemma_first_match_found(v@, 0, sxxexx_matcher(), i as int);
            lemma_run_len_chars(v@, i + 1 as int, digitp());
        }
        let sr = class_run(v, i + 1, CharClass::Digit);
        let season = parse_small(v, i + 1, i + 1 + sr);
        let ep_start = i + 2 + sr;
        proof {
            lemma_run_len_chars(v@, ep_start as int, digitp());
        }
        let erun = class_run(v, ep_start, CharClass::Digit);
        let elen: usize = if erun <= 3 {
            erun
        } else {
            3
        };
        let episode = parse_small(v, ep_start, ep_start + elen);
        let series = clean_prefix(v, i);
        let title = extract_episode_title(v, ep_start + elen);
        return Some(
            EpisodeInfo { series_title: series, season, episode, episode_title: title },
        );
    }
    if let Some(i) = find_ep_pattern(v, EpPattern::Xep) {
        proof {
            lemma_first_match_found(v@, 0, xep_matcher(), i as int);
        }
        let slen: usize = if check_xep2_at(v, i) {
            2
        } else {
            1
        };
        let season = parse_small(v, i, i + slen);
        let ep_start = i + slen + 1;
        proof {
            lemma_run_len_chars(v@, ep_start as int, digitp());
        }
        let erun = class_run(v, ep_start, CharClass::Digit);
        let elen: usize = if erun <= 3 {
            erun
        } else {
            3
        };
        let episode = parse_small(v, ep_start, ep_start + elen);
        let series = clean_prefix(v, i);
        return Some(
            EpisodeInfo { series_title: series, season, episode, episode_title: None },
        );
    }
    if let Some(i) = find_ep_pattern(v, EpPattern::Sep) {
        proof {
            lemma_first_match_found(v@, 0, sep_matcher(), i as int);
            reveal_strlit("season");
            reveal_strlit("episode");
        }
        let p1 = class_run(v, i + 6, CharClass::Space);
        let d1s = i + 6 + p1;
        proof {
            lemma_run_len_chars(v@, d1s as int, digitp());
        }
        let d1 = class_run(v, d1s, CharClass::Digit);
        let p2 = class_run(v, d1s + d1, CharClass::Space);
        let w2 = d1s + d1 + p2;
        let p3 = class_run(v, w2 + 7, CharClass::Space);
        let d2s = w2 + 7 + p3;
        proof {
            lemma_run_len_chars(v@, d2s as int, digitp());
        }
        let d2 = class_run(v, d2s, CharClass::Digit);
        let season_n = parse_u64_range(v, d1s, d1s + d1);
        let episode_n = parse_u64_range(v, d2s, d2s + d2);
        let season: u64 = match season_n {
            Some(n) => n,
            None => {
                proof {
                    lemma_dec_val_overflow(v@, d1s as int, (d1s + d1) as int);
                }
                return None;
            },
        };
        let episode: u64 = match episode_n {
            Some(n) => n,
            None => {
                proof {
                    lemma_dec_val_overflow(v@, d2s as int, (d2s + d2) as int);
                }
                return None;
            },
        };
        if season > u32::MAX as u64 || episode > u32::MAX as u64 {
            return None;
        }
        let series = clean_prefix(v, i);
        return Some(
            EpisodeInfo {
                series_title: series,
                season: season as u32,
                episode: episode as u32,
                episode_title: None,
            },
        );
    }
    None
}

/// A digit run that `parse_u64_range` refuses denotes a value above `u64::MAX`.
proof fn lemma_dec_val_overflow(s: Seq<char>, start: int, end: int)
    requires
        0 <= start <= end <= s.len(),
        forall|k: int| start <= k < end ==> is_digit_char(#[trigger] s[k]),
        start < end,
    ensures
        all_digits(s.subrange(start, end)),
{
    let sub = s.subrange(start, end);
    assert forall|j: int| 0 <= j < sub.len() implies is_digit_char(#[trigger] sub[j]) by {
        assert(sub[j] == s[start + j]);
    }
}

/// Parse a digit run of at most 4 digits; the value always fits in `u32`.
fn parse_small(v: &Vec<char>, start: usize, end: usize) -> (r: u32)
    requires
        start < end <= v@.len(),
        end - start <= 4,
        forall|k: int| start <= k < end ==> is_digit_char(#[trigger] v@[k]),
    ensures
        r == dec_val(v@.subrange(start as int, end as int)),
        r < pow10((end - start) as nat),
{
    proof {
        lemma_dec_val_overflow(v@, start as int, end as int);
        lemma_dec_val_bound(v@.subrange(start as int, end as int));
        assert(pow10(0) == 1);
        assert(pow10(1) == 10);
        assert(pow10(2) == 100);
        assert(pow10(3) == 1000);
        assert(pow10(4) == 10000);
    }
    let r = parse_u64_range(v, start, end);
    match r {
        Some(n) => n as u32,
        None => {
            proof {
                assert(false);
            }
            0
        },
    }
}

/// The cleaned text left of a match: the series title.
fn clean_prefix(v: &Vec<char>, i: usize) -> (r: String)
    requires
        i <= v@.len(),
    ensures
        r@ == clean_title_spec(v@.subrange(0, i as int)),
{
    let pre = sub_chars(v, 0, i);
    let cleaned = clean_title_chars(&pre);
    string_from_chars(&cleaned)
}

/// What `first_match_from` returns is a genuine first match.
pub proof fn lemma_first_match_found(
    s: Seq<char>,
    from: int,
    m: spec_fn(Seq<char>, int) -> bool,
    i: int,
)
    requires
        0 <= from,
        first_match_from(s, from, m) == Some(i),
    ensures
        from <= i < s.len(),
        m(s, i),
    decreases s.len() - from,
{
    if from < s.len() && !m(s, from) {
        lemma_first_match_found(s, from + 1, m, i);
    }
}

// ─── movie patterns ──────────────────────────────────────────────────────

/// The movie-title capture may not span a line break.
pub open spec fn no_newline_before(s: Seq<char>, p: int) -> bool {
    forall|k: int| 0 <= k < p ==> s[k] != '\n'
}

/// `Title (YYYY)` split at `p`: optional spaces, then a parenthesised
/// four-digit year.
pub open spec fn paren_at(s: Seq<char>, p: int) -> bool {
    let j = p + run_len(s, p, spacep());
    &&& 1 <= p <= s.len()
    &&& no_newline_before(s, p)
    &&& j + 6 <= s.len()
    &&& s[j] == '('
    &&& all_digits(s.subrange(j + 1, j + 5))
    &&& s[j + 5] == ')'
}

pub open spec fn paren_year(s: Seq<char>, p: int) -> int {
    let j = p + run_len(s, p, spacep());
    dec_val(s.subrange(j + 1, j + 5)) as int
}

pub open spec fn paren_matcher() -> spec_fn(Seq<char>, int) -> bool {
    |s: Seq<char>, p: int| paren_at(s, p)
}

/// `Title.YYYY.` split at `p`: a dot or space, four digits, then a dot,
/// a space, or the end of the stem.
pub open spec fn dot_at(s: Seq<char>, p: int) -> bool {
    &&& 1 <= p
    &&& no_newline_before(s, p)
    &&& p + 5 <= s.len()
    &&& (s[p] == '.' || is_space_char(s[p]))
    &&& all_digits(s.subrange(p + 1, p + 5))
    &&& (p + 5 == s.len() || s[p + 5] == '.' || is_space_char(s[p + 5]))
}

pub open spec fn dot_year(s: Seq<char>, p: int) -> int {
    dec_val(s.subrange(p + 1, p + 5)) as int
}

pub open spec fn dot_matcher() -> spec_fn(Seq<char>, int) -> bool {
    |s: Seq<char>, p: int| dot_at(s, p)
}

/// Mathematical form of `try_parse_movie`.
pub open spec fn try_parse_movie_spec(s: Seq<char>) -> Option<MovieParse> {
    match first_match_from(s, 0, paren_matcher()) {
        Some(p) => Some(
            MovieParse {
                title: clean_title_spec(s.subrange(0, p)),
                year: Some(paren_year(s, p)),
            },
        ),
        None => match first_match_from(s, 0, dot_matcher()) {
            Some(p) => if 1900 <= dot_year(s, p) && dot_year(s, p) <= 2100 {
                Some(
                    MovieParse {
                        title: clean_title_spec(s.subrange(0, p)),
                        year: Some(dot_year(s, p)),
                    },
                )
            } else {
                None
            },
            None => None,
        },
    }
}

/// The conditions of a paren-year match at `p`, except the prefix conditions.
fn check_paren_rest(v: &Vec<char>, p: usize) -> (r: bool)
    requires
        p <= v@.len(),
    ensures
        r == {
            let j = p + run_len(v@, p as int, spacep());
            &&& j + 6 <= v@.len()
            &&& v@[j] == '('
            &&& all_digits(v@.subrange(j + 1, j + 5))
            &&& v@[j + 5] == ')'
        },
{
    let n: usize = v.len();
    let sp = class_run(v, p, CharClass::Space);
    let j = p + sp;
    if n - j < 6 {
        return false;
    }
    if v[j] != '(' {
        return false;
    }
    let dr = class_run(v, j + 1, CharClass::Digit);
    proof {
        lemma_run_len_chars(v@, j + 1 as int, digitp());
        crate::strutil::lemma_run_len_end(v@, j + 1 as int, digitp());
        if dr >= 4 {
            assert forall|k: int| 0 <= k < 4 implies is_digit_char(
                #[trigger] v@.subrange(j + 1 as int, j + 5 as int)[k],
            ) by {
                assert(v@.subrange(j + 1 as int, j + 5 as int)[k] == v@[j + 1 + k]);
            }
        } else {
            assert(!is_digit_char(v@[j + 1 + dr]));
            assert(v@.subrange(j + 1 as int, j + 5 as int)[dr as int] == v@[j + 1 + dr]);
        }
    }
    if dr < 4 {
        return false;
    }
    v[j + 5] == ')'
}

fn check_dot_rest(v: &Vec<char>, p: usize) -> (r: bool)
    requires
        p <= v@.len(),
    ensures
        r == {
            &&& p + 5 <= v@.len()
            &&& (v@[p as int] == '.' || is_space_char(v@[p as int]))
            &&& all_digits(v@.subrange(p + 1, p + 5))
            &&& (p + 5 == v@.len() || v@[p + 5] == '.' || is_space_char(v@[p + 5]))
        },
{
    let n: usize = v.len();
    if n - p < 5 {
        return false;
    }
    if !(v[p] == '.' || exec_is_space(v[p])) {
        return false;
    }
    let dr = class_run(v, p + 1, CharClass::Digit);
    proof {
        lemma_run_len_chars(v@, p + 1 as int, digitp());
        crate::strutil::lemma_run_len_end(v@, p + 1 as int, digitp());
        if dr >= 4 {
            assert forall|k: int| 0 <= k < 4 implies is_digit_char(
                #[trigger] v@.subrange(p + 1 as int, p + 5 as int)[k],
            ) by {
                assert(v@.subrange(p + 1 as int, p + 5 as int)[k] == v@[p + 1 + k]);
            }
        } else {
            assert(!is_digit_char(v@[p + 1 + dr]));
            assert(v@.subrange(p + 1 as int, p + 5 as int)[dr as int] == v@[p + 1 + dr]);
        }
    }
    if dr < 4 {
        return false;
    }
    if p + 5 == n {
        return true;
    }
    v[p + 5] == '.' || exec_is_space(v[p + 5])
}

/// Scan for the first paren-year (`paren` true) or dot-year split point.
fn find_movie_pattern(v: &Vec<char>, paren: bool) -> (r: Option<usize>)
    ensures
        ({
            let m = if paren {
                paren_matcher()
            } else {
                dot_matcher()
            };
            match r {
                Some(p) => first_match_from(v@, 0, m) == Some(p as int) && p < v@.len(),
                None => first_match_from(v@, 0, m) is None,
            }
        }),
{
    let ghost m = if paren {
        paren_matcher()
    } else {
        dot_matcher()
    };
    let n: usize = v.len();
    let mut nl_free: bool = true;
    let mut p: usize = 0;
    while p < n
        invariant
            0 <= p <= n,
            n == v@.len(),
            m == if paren {
                paren_matcher()
            } else {
                dot_matcher()
            },
            nl_free == no_newline_before(v@, p as int),
            first_match_from(v@, 0, m) == first_match_from(v@, p as int, m),
        decreases n - p,
    {
        let hit: bool = if p >= 1 && nl_free {
            if paren {
                check_paren_rest(v, p)
            } else {
                check_dot_rest(v, p)
            }
        } else {
            false
        };
        if hit {
            return Some(p);
        }
        proof {
            assert(!m(v@, p as int));
        }
        let was_free = nl_free;
        if v[p] == '\n' {
            nl_free = false;
        }
        proof {
            if nl_free {
                assert forall|k: int| 0 <= k < p + 1 implies v@[k] != '\n' by {
                    if k < p as int {
                        assert(no_newline_before(v@, p as int));
                    }
                }
                assert(no_newline_before(v@, p + 1 as int));
            } else {
                if was_free {
                    assert(v@[p as int] == '\n');
                } else {
                    let w = choose|w: int| 0 <= w < p && v@[w] == '\n';
                    assert(0 <= w < p + 1 && v@[w] == '\n');
                }
                assert(!no_newline_before(v@, p + 1 as int));
            }
        }
        p += 1;
    }
    None
}

/// Parse a movie pattern out of a filename stem.
pub fn try_parse_movie(stem: &str) -> (r: Option<MovieInfo>)
    ensures
        match r {
            Some(m) => try_parse_movie_spec(stem@) == Some(m@),
            None => try_parse_movie_spec(stem@) is None,
        },
{
    let v = chars_of(stem);
    try_parse_movie_chars(&v)
}

fn try_parse_movie_chars(v: &Vec<char>) -> (r: Option<MovieInfo>)
    ensures
        match r {
            Some(m) => try_parse_movie_spec(v@) == Some(m@),
            None => try_parse_movie_spec(v@) is None,
        },
{
    let n: usize = v.len();
    if let Some(p) = find_movie_pattern(v, true) {
        proof {
            lemma_first_match_found(v@, 0, paren_matcher(), p as int);
        }
        let sp = class_run(v, p, CharClass::Space);
        let j = p + sp;
        proof {
            lemma_digits_in_subrange(v@, j + 1 as int, j + 5 as int);
        }
        let year = parse_small(v, j + 1, j + 5);
        proof {
            assert(pow10(0) == 1);
            assert(pow10(1) == 10);
            assert(pow10(2) == 100);
            assert(pow10(3) == 1000);
            assert(pow10(4) == 10000);
        }
        let title = clean_prefix(v, p);
        return Some(MovieInfo { title, year: Some(year as u16) });
    }
    if let Some(p) = find_movie_pattern(v, false) {
        proof {
            lemma_first_match_found(v@, 0, dot_matcher(), p as int);
        }
        proof {
            lemma_digits_in_subrange(v@, p + 1 as int, p + 5 as int);
        }
        let year = parse_small(v, p + 1, p + 5);
        proof {
            assert(pow10(0) == 1);
            assert(pow10(1) == 10);
            assert(pow10(2) == 100);
            assert(pow10(3) == 1000);
            assert(pow10(4) == 10000);
        }
        if 1900 <= year && year <= 2100 {
            let title = clean_prefix(v, p);
            return Some(MovieInfo { title, year: Some(year as u16) });
        }
        return None;
    }
    None
}

/// Characters of an all-digit subrange are digits.
proof fn lemma_digits_in_subrange(s: Seq<char>, start: int, end: int)
    requires
        0 <= start <= end <= s.len(),
        all_digits(s.subrange(start, end)),
    ensures
        forall|k: int| start <= k < end ==> is_digit_char(#[trigger] s[k]),
{
    assert forall|k: int| start <= k < end implies is_digit_char(#[trigger] s[k]) by {
        assert(s.subrange(start, end)[k - start] == s[k]);
    }
}

// ─── filename stem and parse_filename ────────────────────────────────────

/// The stem of a filename: the part after the last `/` and `\`, with the
/// extension (the part after the last dot) removed.
pub open spec fn stem_spec(name: Seq<char>) -> Seq<char> {
    let a = match last_index_of(name, '/') {
        Some(i) => name.subrange(i + 1, name.len() as int),
        None => name,
    };
    let b = match last_index_of(a, '\\') {
        Some(i) => a.subrange(i + 1, a.len() as int),
        None => a,
    };
    match last_index_of(b, '.') {
        Some(i) => b.subrange(0, i),
        None => b,
    }
}

/// Mathematical form of `parse_filename`. Episode patterns win over movie
/// patterns; a stem matching neither becomes a year-less movie.
pub open spec fn parse_filename_spec(name: Seq<char>) -> MediaParse {
    let stem = stem_spec(name);
    match try_parse_episode_spec(stem) {
        Some(e) => MediaParse::Episode(e),
        None => match try_parse_movie_spec(stem) {
            Some(m) => MediaParse::Movie(m),
            None => MediaParse::Movie(
                MovieParse { title: clean_title_spec(stem), year: None },
            ),
        },
    }
}

/// Parse a video filename into movie or episode info.
#[verifier::rlimit(50)]
pub fn parse_filename(filename: &str) -> (r: ParsedMedia)
    ensures
        r@ == parse_filename_spec(filename@),
{
    let v = chars_of(filename);
    let n: usize = v.len();
    let a = match exec_last_index_of(&v, '/') {
        Some(i) => sub_chars(&v, i + 1, n),
        None => sub_chars(&v, 0, n),
    };
    let na: usize = a.len();
    let b = match exec_last_index_of(&a, '\\') {
        Some(i) => sub_chars(&a, i + 1, na),
        None => sub_chars(&a, 0, na),
    };
    let stem = match exec_last_index_of(&b, '.') {
        Some(i) => sub_chars(&b, 0, i),
        None => sub_chars(&b, 0, b.len()),
    };
    proof {
        assert(v@.subrange(0, v@.len() as int) =~= v@);
        assert(a@.subrange(0, a@.len() as int) =~= a@);
        assert(b@.subrange(0, b@.len() as int) =~= b@);
        assert(stem@ == stem_spec(filename@));
    }
    if let Some(e) = try_parse_episode_chars(&stem) {
        return ParsedMedia::Episode(e);
    }
    if let Some(m) = try_parse_movie_chars(&stem) {
        return ParsedMedia::Movie(m);
    }
    let title = clean_prefix(&stem, stem.len());
    proof {
        assert(stem@.subrange(0, stem@.len() as int) =~= stem@);
    }
    ParsedMedia::Movie(MovieInfo { title, year: None })
}

// ─── ignore rules ────────────────────────────────────────────────────────

/// A lowercased name hits an ignore pattern if it equals the lowercased
/// pattern or ends with the pattern as written.
pub open spec fn ignore_hit(lower_name: Seq<char>, pat: Seq<char>) -> bool {
    lower_name == lower_seq(pat) || is_suffix_of(pat, lower_name)
}

pub open spec fn should_ignore_spec(name: Seq<char>) -> bool {
    let l = lower_seq(name);
    ||| ignore_hit(l, ".DS_Store"@)
    ||| ignore_hit(l, "Thumbs.db"@)
    ||| ignore_hit(l, "@eaDir"@)
    ||| ignore_hit(l, ".nfo"@)
    ||| ignore_hit(l, ".txt"@)
    ||| ignore_hit(l, ".jpg"@)
    ||| ignore_hit(l, ".jpeg"@)
    ||| ignore_hit(l, ".png"@)
    ||| ignore_hit(l, ".srt"@)
    ||| ignore_hit(l, ".sub"@)
    ||| ignore_hit(l, ".idx"@)
    ||| ignore_hit(l, ".ass"@)
    ||| ignore_hit(l, ".ssa"@)
}

/// Whether `suffix` ends `s`.
fn ends_with_chars(s: &Vec<char>, suffix: &Vec<char>) -> (r: bool)
    ensures
        r == is_suffix_of(suffix@, s@),
{
    if suffix.len() > s.len() {
        return false;
    }
    let r = crate::strutil::match_at(s, suffix, s.len() - suffix.len());
    proof {
        if r {
            assert(is_suffix_of(suffix@, s@));
        }
    }
    r
}

fn ignore_hit_exec(l: &Vec<char>, pat: &str) -> (r: bool)
    ensures
        r == ignore_hit(l@, pat@),
{
    let pv = chars_of(pat);
    let pl = crate::strutil::exec_lower(&pv);
    if crate::strutil::chars_eq(l, &pl) {
        return true;
    }
    ends_with_chars(l, &pv)
}

/// Check if a filename should be ignored.
pub fn should_ignore(filename: &str) -> (r: bool)
    ensures
        r == should_ignore_spec(filename@),
{
    let v = chars_of(filename);
    let l = crate::strutil::exec_lower(&v);
    ignore_hit_exec(&l, ".DS_Store") || ignore_hit_exec(&l, "Thumbs.db") || ignore_hit_exec(
        &l,
        "@eaDir",
    ) || ignore_hit_exec(&l, ".nfo") || ignore_hit_exec(&l, ".txt") || ignore_hit_exec(&l, ".jpg")
        || ignore_hit_exec(&l, ".jpeg") || ignore_hit_exec(&l, ".png") || ignore_hit_exec(
        &l,
        ".srt",
    ) || ignore_hit_exec(&l, ".sub") || ignore_hit_exec(&l, ".idx") || ignore_hit_exec(&l, ".ass")
        || ignore_hit_exec(&l, ".ssa")
}

// ─── video extensions ────────────────────────────────────────────────────

/// The extension of a filename: the part after the last dot, or the whole
/// name when it has none.
pub open spec fn ext_spec(name: Seq<char>) -> Seq<char> {
    match last_index_of(name, '.') {
        Some(i) => name.subrange(i + 1, name.len() as int),
        None => name,
    }
}

/// The set of recognised video file extensions, lowercased.
pub open spec fn is_video_ext(l: Seq<char>) -> bool {
    ||| l == "mp4"@
    ||| l == "m4v"@
    ||| l == "mkv"@
    ||| l == "webm"@
    ||| l == "mov"@
    ||| l == "avi"@
    ||| l == "wmv"@
    ||| l == "flv"@
    ||| l == "ts"@
    ||| l == "m2ts"@
    ||| l == "mts"@
    ||| l == "mpg"@
    ||| l == "mpeg"@
    ||| l == "3gp"@
    ||| l == "3g2"@
    ||| l == "ogv"@
    ||| l == "vob"@
    ||| l == "mxf"@
    ||| l == "asf"@
    ||| l == "f4v"@
    ||| l == "mpe"@
    ||| l == "mpv"@
}

pub open spec fn is_video_file_spec(name: Seq<char>) -> bool {
    is_video_ext(lower_seq(ext_spec(name)))
}

/// Check if a file has a video extension.
pub fn is_video_file(filename: &str) -> (r: bool)
    ensures
        r == is_video_file_spec(filename@),
{
    let v = chars_of(filename);
    let n: usize = v.len();
    let ext = match exec_last_index_of(&v, '.') {
        Some(i) => sub_chars(&v, i + 1, n),
        None => sub_chars(&v, 0, n),
    };
    proof {
        assert(v@.subrange(0, v@.len() as int) =~= v@);
    }
    let l = crate::strutil::exec_lower(&ext);
    crate::strutil::chars_eq_str(&l, "mp4") || crate::strutil::chars_eq_str(&l, "m4v")
        || crate::strutil::chars_eq_str(&l, "mkv") || crate::strutil::chars_eq_str(&l, "webm")
        || crate::strutil::chars_eq_str(&l, "mov") || crate::strutil::chars_eq_str(&l, "avi")
        || crate::strutil::chars_eq_str(&l, "wmv") || crate::strutil::chars_eq_str(&l, "flv")
        || crate::strutil::chars_eq_str(&l, "ts") || crate::strutil::chars_eq_str(&l, "m2ts")
        || crate::strutil::chars_eq_str(&l, "mts") || crate::strutil::chars_eq_str(&l, "mpg")
        || crate::strutil::chars_eq_str(&l, "mpeg") || crate::strutil::chars_eq_str(&l, "3gp")
        || crate::strutil::chars_eq_str(&l, "3g2") || crate::strutil::chars_eq_str(&l, "ogv")
        || crate::strutil::chars_eq_str(&l, "vob") || crate::strutil::chars_eq_str(&l, "mxf")
        || crate::strutil::chars_eq_str(&l, "asf") || crate::strutil::chars_eq_str(&l, "f4v")
        || crate::strutil::chars_eq_str(&l, "mpe") || crate::strutil::chars_eq_str(&l, "mpv")
}

// ─── provider-ID tags ────────────────────────────────────────────────────

/// A provider tag `[word=value]` starts at `i`.
pub open spec fn tag_at(s: Seq<char>, i: int) -> bool {
    let w = run_len(s, i + 1, wordp());
    let eqp = i + 1 + w;
    let vlen = run_len(s, eqp + 1, nonbrp());
    &&& 0 <= i < s.len()
    &&& s[i] == '['
    &&& w >= 1
    &&& eqp < s.len()
    &&& s[eqp] == '='
    &&& vlen >= 1
    &&& eqp + 1 + vlen < s.len()
}

pub open spec fn tag_word_len(s: Seq<char>, i: int) -> int {
    run_len(s, i + 1, wordp())
}

pub open spec fn tag_value_len(s: Seq<char>, i: int) -> int {
    run_len(s, i + 2 + tag_word_len(s, i), nonbrp())
}

pub open spec fn tag_end(s: Seq<char>, i: int) -> int {
    i + 3 + tag_word_len(s, i) + tag_value_len(s, i)
}

pub open spec fn tag_provider(s: Seq<char>, i: int) -> Seq<char> {
    lower_seq(s.subrange(i + 1, i + 1 + tag_word_len(s, i)))
}

pub open spec fn tag_value(s: Seq<char>, i: int) -> Seq<char> {
    let eqp = i + 1 + tag_word_len(s, i);
    s.subrange(eqp + 1, eqp + 1 + tag_value_len(s, i))
}

pub open spec fn tag_matcher() -> spec_fn(Seq<char>, int) -> bool {
    |s: Seq<char>, i: int| tag_at(s, i)
}

/// The provider tags of a name, scanned left to right; after each tag the
/// scan resumes at its closing bracket.
pub open spec fn tags_from(s: Seq<char>, i: int) -> Seq<(Seq<char>, Seq<char>)>
    decreases s.len() - i,
    via tags_from_dec
{
    match first_match_from(s, i, tag_matcher()) {
        Some(j) => seq![(tag_provider(s, j), tag_value(s, j))] + tags_from(s, tag_end(s, j)),
        None => Seq::empty(),
    }
}

#[via_fn]
proof fn tags_from_dec(s: Seq<char>, i: int) {
    match first_match_from(s, i, tag_matcher()) {
        Some(j) => {
            assert(i >= 0 && i < s.len());
            lemma_first_match_found(s, i, tag_matcher(), j);
        },
        None => {},
    }
}

fn check_tag_at(v: &Vec<char>, i: usize) -> (r: bool)
    requires
        i < v@.len(),
    ensures
        r == tag_at(v@, i as int),
{
    let n: usize = v.len();
    if v[i] != '[' {
        return false;
    }
    let w = class_run(v, i + 1, CharClass::Word);
    if w < 1 {
        return false;
    }
    let eqp = i + 1 + w;
    if eqp >= n {
        return false;
    }
    if v[eqp] != '=' {
        return false;
    }
    let vlen = class_run(v, eqp + 1, CharClass::NonBracket);
    if vlen < 1 {
        return false;
    }
    eqp + 1 + vlen < n
}

fn find_tag_from(v: &Vec<char>, from: usize) -> (r: Option<usize>)
    requires
        from <= v@.len(),
    ensures
        match r {
            Some(i) => first_match_from(v@, from as int, tag_matcher()) == Some(i as int) && from
                <= i < v@.len() && tag_at(v@, i as int),
            None => first_match_from(v@, from as int, tag_matcher()) is None,
        },
{
    let n: usize = v.len();
    let mut i: usize = from;
    while i < n
        invariant
            from <= i <= n,
            n == v@.len(),
            first_match_from(v@, from as int, tag_matcher()) == first_match_from(
                v@,
                i as int,
                tag_matcher(),
            ),
        decreases n - i,
    {
        if check_tag_at(v, i) {
            return Some(i);
        }
        i += 1;
    }
    None
}

/// Extract provider IDs from a folder/file name like `[tmdb=12345]`.
pub fn extract_provider_ids(name: &str) -> (r: Vec<(String, String)>)
    ensures
        r@.len() == tags_from(name@, 0).len(),
        forall|k: int|
            0 <= k < r@.len() ==> (#[trigger] r@[k]).0@ == tags_from(name@, 0)[k].0 && r@[k].1@
                == tags_from(name@, 0)[k].1,
{
    let v = chars_of(name);
    let n: usize = v.len();
    let mut out: Vec<(String, String)> = Vec::new();
    let mut i: usize = 0;
    loop
        invariant
            0 <= i <= n,
            n == v@.len(),
            v@ == name@,
            tags_from(name@, 0).len() == out@.len() + tags_from(v@, i as int).len(),
            forall|k: int|
                0 <= k < out@.len() ==> (#[trigger] out@[k]).0@ == tags_from(name@, 0)[k].0
                    && out@[k].1@ == tags_from(name@, 0)[k].1,
            forall|k: int|
                out@.len() <= k < tags_from(name@, 0).len() ==> #[trigger] tags_from(name@, 0)[k]
                    == tags_from(v@, i as int)[k - out@.len()],
        decreases n - i,
    {
        let found = find_tag_from(&v, i);
        match found {
            Some(j) => {
                proof {
                    lemma_run_len_chars(v@, j + 1 as int, wordp());
                }
                let w = class_run(&v, j + 1, CharClass::Word);
                let eqp = j + 1 + w;
                let vlen = class_run(&v, eqp + 1, CharClass::NonBracket);
                let word = sub_chars(&v, j + 1, j + 1 + w);
                let lower_word = crate::strutil::exec_lower(&word);
                let provider = string_from_chars(&lower_word);
                let value_chars = sub_chars(&v, eqp + 1, eqp + 1 + vlen);
                let value = string_from_chars(&value_chars);
                let ghost old_out = out@;
                let ghost old_i = i as int;
                out.push((provider, value));
                i = eqp + 1 + vlen + 1;
                proof {
                    let g = tags_from(name@, 0);
                    assert(tags_from(v@, old_i) == seq![
                        (tag_provider(v@, j as int), tag_value(v@, j as int)),
                    ] + tags_from(v@, tag_end(v@, j as int)));
                    assert(tag_end(v@, j as int) == i as int);
                    assert(g[old_out.len() as int] == tags_from(v@, old_i)[0]);
                    assert(provider@ == tag_provider(v@, j as int));
                    assert(value@ == tag_value(v@, j as int));
                    assert forall|k: int|
                        out@.len() <= k < g.len() implies #[trigger] g[k] == tags_from(
                        v@,
                        i as int,
                    )[k - out@.len()] by {
                        assert(g[k] == tags_from(v@, old_i)[k - old_out.len()]);
                        assert(tags_from(v@, old_i)[k - old_out.len()] == (seq![
                            (tag_provider(v@, j as int), tag_value(v@, j as int)),
                        ] + tags_from(v@, i as int))[k - old_out.len()]);
                    }
                }
            },
            None => {
                proof {
                    assert(tags_from(v@, i as int) =~= Seq::<(Seq<char>, Seq<char>)>::empty());
                }
                return out;
            },
        }
    }
}

} // verus!

//! Sidecar subtitle metadata: formats, language markers, display titles.
//!
//! Naming conventions parsed from the extra dotted segments between a media
//! stem and the subtitle extension: a two-letter ISO 639-1 code (or any
//! three-letter segment) names the language, `forced` marks a forced track,
//! and `sdh`, `hi` or `cc` mark a hearing-impaired track.

use crate::strutil::{
    chars_eq_str, chars_of, lower_seq, run_len, string_from_chars, sub_chars, upper_seq,
};
use vstd::prelude::*;

verus! {

/// A discovered sidecar subtitle file.
#[derive(Debug, Clone)]
pub struct SidecarSubtitle {
    pub path: String,
    pub format: SubtitleFormat,
    pub language: Option<String>,
    pub forced: bool,
    pub sdh: bool,
    pub title: Option<String>,
}

#[derive(Debug, Clone, Copy, PartialEq, Eq, Structural)]
pub enum SubtitleFormat {
    Srt,
    Sub,
    Ass,
    Ssa,
    Vtt,
    Sup,
    Idx,
}

/// Mathematical form of `SubtitleFormat::from_extension`.
pub open spec fn format_from_ext_spec(e: Seq<char>) -> Option<SubtitleFormat> {
    let l = lower_seq(e);
    if l == "srt"@ {
        Some(SubtitleFormat::Srt)
    } else if l == "sub"@ {
        Some(SubtitleFormat::Sub)
    } else if l == "ass"@ {
        Some(SubtitleFormat::Ass)
    } else if l == "ssa"@ {
        Some(SubtitleFormat::Ssa)
    } else if l == "vtt"@ {
        Some(SubtitleFormat::Vtt)
    } else if l == "sup"@ {
        Some(SubtitleFormat::Sup)
    } else if l == "idx"@ {
        Some(SubtitleFormat::Idx)
    } else {
        None
    }
}

impl SubtitleFormat {
    /// The format named by a file extension, case-insensitively.
    pub fn from_extension(ext: &str) -> (r: Option<Self>)
        ensures
            r == format_from_ext_spec(ext@),
    {
        let v = chars_of(ext);
        let l = crate::strutil::exec_lower(&v);
        if chars_eq_str(&l, "srt") {
            Some(Self::Srt)
        } else if chars_eq_str(&l, "sub") {
            Some(Self::Sub)
        } else if chars_eq_str(&l, "ass") {
            Some(Self::Ass)
        } else if chars_eq_str(&l, "ssa") {
            Some(Self::Ssa)
        } else if chars_eq_str(&l, "vtt") {
            Some(Self::Vtt)
        } else if chars_eq_str(&l, "sup") {
            Some(Self::Sup)
        } else if chars_eq_str(&l, "idx") {
            Some(Self::Idx)
        } else {
            None
        }
    }

    /// The MIME type served for this subtitle format.
    pub fn mime_type(&self) -> (r: &'static str)
        ensures
            *self is Srt ==> r@ == "application/x-subrip"@,
            *self is Sub ==> r@ == "text/plain"@,
            *self is Ass ==> r@ == "text/x-ssa"@,
            *self is Ssa ==> r@ == "text/x-ssa"@,
            *self is Vtt ==> r@ == "text/vtt"@,
            *self is Sup ==> r@ == "application/octet-stream"@,
            *self is Idx ==> r@ == "text/plain"@,
    {
        match self {
            Self::Srt => "application/x-subrip",
            Self::Sub => "text/plain",
            Self::Ass | Self::Ssa => "text/x-ssa",
            Self::Vtt => "text/vtt",
            Self::Sup => "application/octet-stream",
            Self::Idx => "text/plain",
        }
    }
}

/// The recognised ISO 639-1 two-letter language codes, lowercased.
pub open spec fn is_iso639_1(l: Seq<char>) -> bool {
    ||| l == "aa"@
    ||| l == "ab"@
    ||| l == "af"@
    ||| l == "ak"@
    ||| l == "am"@
    ||| l == "an"@
    ||| l == "ar"@
    ||| l == "as"@
    ||| l == "av"@
    ||| l == "ay"@
    ||| l == "az"@
    ||| l == "ba"@
    ||| l == "be"@
    ||| l == "bg"@
    ||| l == "bh"@
    ||| l == "bi"@
    ||| l == "bm"@
    ||| l == "bn"@
    ||| l == "bo"@
    ||| l == "br"@
    ||| l == "bs"@
    ||| l == "ca"@
    ||| l == "ce"@
    ||| l == "ch"@
    ||| l == "co"@
    ||| l == "cr"@
    ||| l == "cs"@
    ||| l == "cu"@
    ||| l == "cv"@
    ||| l == "cy"@
    ||| l == "da"@
    ||| l == "de"@
    ||| l == "dv"@
    ||| l == "dz"@
    ||| l == "ee"@
    ||| l == "el"@
    ||| l == "en"@
    ||| l == "eo"@
    ||| l == "es"@
    ||| l == "et"@
    ||| l == "eu"@
    ||| l == "fa"@
    ||| l == "ff"@
    ||| l == "fi"@
    ||| l == "fj"@
    ||| l == "fo"@
    ||| l == "fr"@
    ||| l == "fy"@
    ||| l == "ga"@
    ||| l == "gd"@
    ||| l == "gl"@
    ||| l == "gn"@
    ||| l == "gu"@
    ||| l == "gv"@
    ||| l == "ha"@
    ||| l == "he"@
    ||| l == "hi"@
    ||| l == "ho"@
    ||| l == "hr"@
    ||| l == "ht"@
    ||| l == "hu"@
    ||| l == "hy"@
    ||| l == "hz"@
    ||| l == "ia"@
    ||| l == "id"@
    ||| l == "ie"@
    ||| l == "ig"@
    ||| l == "ii"@
    ||| l == "ik"@
    ||| l == "in"@
    ||| l == "io"@
    ||| l == "is"@
    ||| l == "it"@
    ||| l == "iu"@
    ||| l == "ja"@
    ||| l == "jv"@
    ||| l == "ka"@
    ||| l == "kg"@
    ||| l == "ki"@
    ||| l == "kj"@
    ||| l == "kk"@
    ||| l == "kl"@
    ||| l == "km"@
    ||| l == "kn"@
    ||| l == "ko"@
    ||| l == "kr"@
    ||| l == "ks"@
    ||| l == "ku"@
    ||| l == "kv"@
    ||| l == "kw"@
    ||| l == "ky"@
    ||| l == "la"@
    ||| l == "lb"@
    ||| l == "lg"@
    ||| l == "li"@
    ||| l == "ln"@
    ||| l == "lo"@
    ||| l == "lt"@
    ||| l == "lu"@
    ||| l == "lv"@
    ||| l == "mg"@
    ||| l == "mh"@
    ||| l == "mi"@
    ||| l == "mk"@
    ||| l == "ml"@
    ||| l == "mn"@
    ||| l == "mr"@
    ||| l == "ms"@
    ||| l == "mt"@
    ||| l == "my"@
    ||| l == "na"@
    ||| l == "nb"@
    ||| l == "nd"@
    ||| l == "ne"@
    ||| l == "ng"@
    ||| l == "nl"@
    ||| l == "nn"@
    ||| l == "no"@
    ||| l == "nr"@
    ||| l == "nv"@
    ||| l == "ny"@
    ||| l == "oc"@
    ||| l == "oj"@
    ||| l == "om"@
    ||| l == "or"@
    ||| l == "os"@
    ||| l == "pa"@
    ||| l == "pi"@
    ||| l == "pl"@
    ||| l == "ps"@
    ||| l == "pt"@
    ||| l == "qu"@
    ||| l == "rm"@
    ||| l == "rn"@
    ||| l == "ro"@
    ||| l == "ru"@
    ||| l == "rw"@
    ||| l == "sa"@
    ||| l == "sc"@
    ||| l == "sd"@
    ||| l == "se"@
    ||| l == "sg"@
    ||| l == "si"@
    ||| l == "sk"@
    ||| l == "sl"@
    ||| l == "sm"@
    ||| l == "sn"@
    ||| l == "so"@
    ||| l == "sq"@
    ||| l == "sr"@
    ||| l == "ss"@
    ||| l == "st"@
    ||| l == "su"@
    ||| l == "sv"@
    ||| l == "sw"@
    ||| l == "ta"@
    ||| l == "te"@
    ||| l == "tg"@
    ||| l == "th"@
    ||| l == "ti"@
    ||| l == "tk"@
    ||| l == "tl"@
    ||| l == "tn"@
    ||| l == "to"@
    ||| l == "tr"@
    ||| l == "ts"@
    ||| l == "tt"@
    ||| l == "tw"@
    ||| l == "ty"@
    ||| l == "ug"@
    ||| l == "uk"@
    ||| l == "ur"@
    ||| l == "uz"@
    ||| l == "ve"@
    ||| l == "vi"@
    ||| l == "vo"@
    ||| l == "wa"@
    ||| l == "wo"@
    ||| l == "xh"@
    ||| l == "yi"@
    ||| l == "yo"@
    ||| l == "za"@
    ||| l == "zh"@
    ||| l == "zu"@
}

/// A segment names a language: a known two-letter code in any case, or any
/// three-character segment (ISO 639-2).
pub open spec fn is_lang_code_spec(s: Seq<char>) -> bool {
    is_iso639_1(lower_seq(s)) || lower_seq(s).len() == 3
}

/// Whether a dotted segment names a language.
pub fn is_lang_code(s: &str) -> (r: bool)
    ensures
        r == is_lang_code_spec(s@),
{
    let v = chars_of(s);
    let lv = crate::strutil::exec_lower(&v);
    is_lang_code_chars(&lv)
}

fn is_lang_code_chars(l: &Vec<char>) -> (r: bool)
    ensures
        r == (is_iso639_1(l@) || l@.len() == 3),
{
    if l.len() == 3 {
        return true;
    }
    chars_eq_str(l, "aa")
        || chars_eq_str(l, "ab")
        || chars_eq_str(l, "af")
        || chars_eq_str(l, "ak")
        || chars_eq_str(l, "am")
        || chars_eq_str(l, "an")
        || chars_eq_str(l, "ar")
        || chars_eq_str(l, "as")
        || chars_eq_str(l, "av")
        || chars_eq_str(l, "ay")
        || chars_eq_str(l, "az")
        || chars_eq_str(l, "ba")
        || chars_eq_str(l, "be")
        || chars_eq_str(l, "bg")
        || chars_eq_str(l, "bh")
        || chars_eq_str(l, "bi")
        || chars_eq_str(l, "bm")
        || chars_eq_str(l, "bn")
        || chars_eq_str(l, "bo")
        || chars_eq_str(l, "br")
        || chars_eq_str(l, "bs")
        || chars_eq_str(l, "ca")
        || chars_eq_str(l, "ce")
        || chars_eq_str(l, "ch")
        || chars_eq_str(l, "co")
        || chars_eq_str(l, "cr")
        || chars_eq_str(l, "cs")
        || chars_eq_str(l, "cu")
        || chars_eq_str(l, "cv")
        || chars_eq_str(l, "cy")
        || chars_eq_str(l, "da")
        || chars_eq_str(l, "de")
        || chars_eq_str(l, "dv")
        || chars_eq_str(l, "dz")
        || chars_eq_str(l, "ee")
        || chars_eq_str(l, "el")
        || chars_eq_str(l, "en")
        || chars_eq_str(l, "eo")
        || chars_eq_str(l, "es")
        || chars_eq_str(l, "et")
        || chars_eq_str(l, "eu")
        || chars_eq_str(l, "fa")
        || chars_eq_str(l, "ff")
        || chars_eq_str(l, "fi")
        || chars_eq_str(l, "fj")
        || chars_eq_str(l, "fo")
        || chars_eq_str(l, "fr")
        || chars_eq_str(l, "fy")
        || chars_eq_str(l, "ga")
        || chars_eq_str(l, "gd")
        || chars_eq_str(l, "gl")
        || chars_eq_str(l, "gn")
        || chars_eq_str(l, "gu")
        || chars_eq_str(l, "gv")
        || chars_eq_str(l, "ha")
        || chars_eq_str(l, "he")
        || chars_eq_str(l, "hi")
        || chars_eq_str(l, "ho")
        || chars_eq_str(l, "hr")
        || chars_eq_str(l, "ht")
        || chars_eq_str(l, "hu")
        || chars_eq_str(l, "hy")
        || chars_eq_str(l, "hz")
        || chars_eq_str(l, "ia")
        || chars_eq_str(l, "id")
        || chars_eq_str(l, "ie")
        || chars_eq_str(l, "ig")
        || chars_eq_str(l, "ii")
        || chars_eq_str(l, "ik")
        || chars_eq_str(l, "in")
        || chars_eq_str(l, "io")
        || chars_eq_str(l, "is")
        || chars_eq_str(l, "it")
        || chars_eq_str(l, "iu")
        || chars_eq_str(l, "ja")
        || chars_eq_str(l, "jv")
        || chars_eq_str(l, "ka")
        || chars_eq_str(l, "kg")
        || chars_eq_str(l, "ki")
        || chars_eq_str(l, "kj")
        || chars_eq_str(l, "kk")
        || chars_eq_str(l, "kl")
        || chars_eq_str(l, "km")
        || chars_eq_str(l, "kn")
        || chars_eq_str(l, "ko")
        || chars_eq_str(l, "kr")
        || chars_eq_str(l, "ks")
        || chars_eq_str(l, "ku")
        || chars_eq_str(l, "kv")
        || chars_eq_str(l, "kw")
        || chars_eq_str(l, "ky")
        || chars_eq_str(l, "la")
        || chars_eq_str(l, "lb")
        || chars_eq_str(l, "lg")
        || chars_eq_str(l, "li")
        || chars_eq_str(l, "ln")
        || chars_eq_str(l, "lo")
        || chars_eq_str(l, "lt")
        || chars_eq_str(l, "lu")
        || chars_eq_str(l, "lv")
        || chars_eq_str(l, "mg")
        || chars_eq_str(l, "mh")
        || chars_eq_str(l, "mi")
        || chars_eq_str(l, "mk")
        || chars_eq_str(l, "ml")
        || chars_eq_str(l, "mn")
        || chars_eq_str(l, "mr")
        || chars_eq_str(l, "ms")
        || chars_eq_str(l, "mt")
        || chars_eq_str(l, "my")
        || chars_eq_str(l, "na")
        || chars_eq_str(l, "nb")
        || chars_eq_str(l, "nd")
        || chars_eq_str(l, "ne")
        || chars_eq_str(l, "ng")
        || chars_eq_str(l, "nl")
        || chars_eq_str(l, "nn")
        || chars_eq_str(l, "no")
        || chars_eq_str(l, "nr")
        || chars_eq_str(l, "nv")
        || chars_eq_str(l, "ny")
        || chars_eq_str(l, "oc")
        || chars_eq_str(l, "oj")
        || chars_eq_str(l, "om")
        || chars_eq_str(l, "or")
        || chars_eq_str(l, "os")
        || chars_eq_str(l, "pa")
        || chars_eq_str(l, "pi")
        || chars_eq_str(l, "pl")
        || chars_eq_str(l, "ps")
        || chars_eq_str(l, "pt")
        || chars_eq_str(l, "qu")
        || chars_eq_str(l, "rm")
        || chars_eq_str(l, "rn")
        || chars_eq_str(l, "ro")
        || chars_eq_str(l, "ru")
        || chars_eq_str(l, "rw")
        || chars_eq_str(l, "sa")
        || chars_eq_str(l, "sc")
        || chars_eq_str(l, "sd")
        || chars_eq_str(l, "se")
        || chars_eq_str(l, "sg")
        || chars_eq_str(l, "si")
        || chars_eq_str(l, "sk")
        || chars_eq_str(l, "sl")
        || chars_eq_str(l, "sm")
        || chars_eq_str(l, "sn")
        || chars_eq_str(l, "so")
        || chars_eq_str(l, "sq")
        || chars_eq_str(l, "sr")
        || chars_eq_str(l, "ss")
        || chars_eq_str(l, "st")
        || chars_eq_str(l, "su")
        || chars_eq_str(l, "sv")
        || chars_eq_str(l, "sw")
        || chars_eq_str(l, "ta")
        || chars_eq_str(l, "te")
        || chars_eq_str(l, "tg")
        || chars_eq_str(l, "th")
        || chars_eq_str(l, "ti")
        || chars_eq_str(l, "tk")
        || chars_eq_str(l, "tl")
        || chars_eq_str(l, "tn")
        || chars_eq_str(l, "to")
        || chars_eq_str(l, "tr")
        || chars_eq_str(l, "ts")
        || chars_eq_str(l, "tt")
        || chars_eq_str(l, "tw")
        || chars_eq_str(l, "ty")
        || chars_eq_str(l, "ug")
        || chars_eq_str(l, "uk")
        || chars_eq_str(l, "ur")
        || chars_eq_str(l, "uz")
        || chars_eq_str(l, "ve")
        || chars_eq_str(l, "vi")
        || chars_eq_str(l, "vo")
        || chars_eq_str(l, "wa")
        || chars_eq_str(l, "wo")
        || chars_eq_str(l, "xh")
        || chars_eq_str(l, "yi")
        || chars_eq_str(l, "yo")
        || chars_eq_str(l, "za")
        || chars_eq_str(l, "zh")
        || chars_eq_str(l, "zu")
}

// ─── filename markers ────────────────────────────────────────────────────

/// Accumulated language/forced/SDH markers.
pub struct Markers {
    pub language: Option<Seq<char>>,
    pub forced: bool,
    pub sdh: bool,
}

pub open spec fn nondotp() -> spec_fn(char) -> bool {
    |c: char| c != '.'
}

/// The effect of one dotted segment on the markers.
pub open spec fn apply_marker(st: Markers, part: Seq<char>) -> Markers {
    let l = lower_seq(part);
    if l == "forced"@ {
        Markers { forced: true, ..st }
    } else if l == "sdh"@ || l == "hi"@ || l == "cc"@ {
        Markers { sdh: true, ..st }
    } else if is_lang_code_spec(part) && st.language is None {
        Markers { language: Some(l), ..st }
    } else {
        st
    }
}

/// Fold the dotted segments of `s[i..]` over the markers.
pub open spec fn markers_from(s: Seq<char>, i: int, st: Markers) -> Markers
    decreases s.len() - i,
    via markers_from_dec
{
    if i < 0 || i >= s.len() {
        st
    } else if s[i] == '.' {
        markers_from(s, i + 1, st)
    } else {
        let j = i + run_len(s, i, nondotp());
        markers_from(s, j, apply_marker(st, s.subrange(i, j)))
    }
}

#[via_fn]
proof fn markers_from_dec(s: Seq<char>, i: int, st: Markers) {
    if 0 <= i < s.len() && s[i] != '.' {
        crate::strutil::lemma_run_len_bounds(s, i + 1, nondotp());
        assert(run_len(s, i, nondotp()) == 1 + run_len(s, i + 1, nondotp()));
    }
}

/// Mathematical form of `parse_sub_markers`: the markers read from the text
/// of the subtitle stem past the media stem's length.
pub open spec fn sub_markers_spec(media_stem: Seq<char>, sub_stem: Seq<char>) -> Markers {
    let init = Markers { language: None, forced: false, sdh: false };
    if sub_stem.len() > media_stem.len() {
        markers_from(sub_stem, media_stem.len() as int, init)
    } else {
        init
    }
}

/// Parse subtitle metadata from filename parts: `(language, forced, sdh)`.
pub fn parse_sub_markers(media_stem: &str, sub_stem: &str) -> (r: (Option<String>, bool, bool))
    ensures
        ({
            let g = sub_markers_spec(media_stem@, sub_stem@);
            &&& match (r.0, g.language) {
                (Some(l), Some(gl)) => l@ == gl,
                (None, None) => true,
                _ => false,
            }
            &&& r.1 == g.forced
            &&& r.2 == g.sdh
        }),
{
    let m = chars_of(media_stem);
    let v = chars_of(sub_stem);
    let n: usize = v.len();
    let start: usize = m.len();
    if n <= start {
        return (None, false, false);
    }
    let mut language: Option<String> = None;
    let mut forced: bool = false;
    let mut sdh: bool = false;
    let ghost init = Markers { language: None, forced: false, sdh: false };
    let mut i: usize = start;
    while i < n
        invariant
            start <= i <= n,
            n == v@.len(),
            markers_from(v@, start as int, init) == markers_from(
                v@,
                i as int,
                Markers {
                    language: match language {
                        Some(l) => Some(l@),
                        None => None,
                    },
                    forced,
                    sdh,
                },
            ),
        decreases n - i,
    {
        if v[i] == '.' {
            i += 1;
        } else {
            let rl = class_run_nondot(&v, i);
            proof {
                crate::strutil::lemma_run_len_bounds(v@, i + 1 as int, nondotp());
                assert(run_len(v@, i as int, nondotp()) == 1 + run_len(v@, i + 1 as int, nondotp()));
            }
            let part = sub_chars(&v, i, i + rl);
            let l = crate::strutil::exec_lower(&part);
            if chars_eq_str(&l, "forced") {
                forced = true;
            } else if chars_eq_str(&l, "sdh") || chars_eq_str(&l, "hi") || chars_eq_str(&l, "cc") {
                sdh = true;
            } else if is_lang_code_chars(&l) && language.is_none() {
                language = Some(string_from_chars(&l));
            }
            i = i + rl;
        }
    }
    (language, forced, sdh)
}

fn class_run_nondot(v: &Vec<char>, i: usize) -> (r: usize)
    requires
        i <= v@.len(),
    ensures
        i + r <= v@.len(),
        r == run_len(v@, i as int, nondotp()),
{
    let mut j: usize = i;
    while j < v.len() && v[j] != '.'
        invariant
            i <= j <= v@.len(),
            run_len(v@, i as int, nondotp()) == (j - i) + run_len(v@, j as int, nondotp()),
        decreases v.len() - j,
    {
        j += 1;
    }
    j - i
}

// ─── display titles ──────────────────────────────────────────────────────

/// Mathematical form of `build_title`: uppercased language (or `Unknown`)
/// followed by `Forced` and `SDH` flags.
pub open spec fn build_title_spec(lang: Option<Seq<char>>, forced: bool, sdh: bool) -> Seq<char> {
    let base = match lang {
        Some(l) => upper_seq(l),
        None => "Unknown"@,
    };
    let with_forced = if forced {
        base + " Forced"@
    } else {
        base
    };
    if sdh {
        with_forced + " SDH"@
    } else {
        with_forced
    }
}

/// Compose a display title from the parsed markers.
pub fn build_title(language: &Option<String>, forced: bool, sdh: bool) -> (r: String)
    ensures
        r@ == build_title_spec(
            match language {
                Some(l) => Some(l@),
                None => None,
            },
            forced,
            sdh,
        ),
{
    let mut out: Vec<char> = match language {
        Some(l) => {
            let lv = chars_of(l.as_str());
            crate::strutil::exec_upper(&lv)
        },
        None => chars_of("Unknown"),
    };
    if forced {
        let mut f = chars_of(" Forced");
        out.append(&mut f);
    }
    if sdh {
        let mut s = chars_of(" SDH");
        out.append(&mut s);
    }
    string_from_chars(&out)
}

} // verus!

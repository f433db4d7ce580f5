//! HTTP range streaming: RFC 7233 single-range parsing, content types by
//! file extension, and the response plan for a stream request.
//!
//! A malformed header is answered 400; a start at or past the file size is
//! answered 416. Range numerals are plain decimal digit runs.

use crate::strutil::{
    all_digits, chars_of, dec_str, dec_val, exec_first_index_of, exec_last_index_of, exec_trim,
    first_index_from, last_index_of, lower_seq, match_at, parse_u64_range, sub_chars, trim_spec,
    u64_to_dec_string,
};
use vstd::string::StringExecFns;
use vstd::prelude::*;
use vstd::string::StringSliceAdditionalSpecFns;

verus! {

/// A parsed byte range, both ends inclusive.
#[derive(Debug, Clone, Copy, PartialEq, Eq, Structural)]
pub struct ByteRange {
    pub start: u64,
    pub end_inclusive: u64,
}

/// Why a Range header was refused.
#[derive(Debug, Clone, Copy, PartialEq, Eq, Structural)]
pub enum RangeError {
    /// The requested start lies at or past the end of the file: 416.
    Unsatisfiable,
    /// The header does not denote a single well-formed byte range: 400.
    Malformed,
}

/// Mathematical form of a range-parse outcome.
pub enum RangeParse {
    Accepted { start: int, end: int },
    Unsatisfiable,
    Malformed,
}

pub open spec fn spec_min(a: int, b: int) -> int {
    if a <= b {
        a
    } else {
        b
    }
}

/// Mathematical form of `parse_range_header`, after trimming the header:
/// `bytes=a-b`, `bytes=a-`, or `bytes=-n`, a single range only.
pub open spec fn range_parse_spec(s: Seq<char>, size: int) -> RangeParse {
    let t = trim_spec(s);
    if !(t.len() >= 6 && t.subrange(0, 6) == "bytes="@) {
        RangeParse::Malformed
    } else {
        let body = t.subrange(6, t.len() as int);
        if first_index_from(body, 0, ',') is Some {
            RangeParse::Malformed
        } else {
            let dash = first_index_from(body, 0, '-');
            let ss = match dash {
                Some(d) => body.subrange(0, d),
                None => body,
            };
            let es = match dash {
                Some(d) => body.subrange(d + 1, body.len() as int),
                None => Seq::empty(),
            };
            if ss.len() == 0 {
                // suffix form: the last n bytes
                if !(es.len() >= 1 && all_digits(es) && dec_val(es) <= u64::MAX) {
                    RangeParse::Malformed
                } else {
                    let start = size - spec_min(dec_val(es) as int, size);
                    if start >= size {
                        RangeParse::Unsatisfiable
                    } else {
                        RangeParse::Accepted { start, end: size - 1 }
                    }
                }
            } else if !(all_digits(ss) && dec_val(ss) <= u64::MAX) {
                RangeParse::Malformed
            } else {
                let start = dec_val(ss) as int;
                if es.len() == 0 {
                    if start >= size {
                        RangeParse::Unsatisfiable
                    } else {
                        RangeParse::Accepted { start, end: size - 1 }
                    }
                } else if !(all_digits(es) && dec_val(es) <= u64::MAX) {
                    RangeParse::Malformed
                } else if start >= size {
                    RangeParse::Unsatisfiable
                } else {
                    let end = spec_min(dec_val(es) as int, size - 1);
                    if start > end {
                        RangeParse::Malformed
                    } else {
                        RangeParse::Accepted { start, end }
                    }
                }
            }
        }
    }
}

/// On success the range lies inside the file: `start <= end < size`.
pub proof fn lemma_range_parse_in_bounds(s: Seq<char>, size: int)
    ensures
        match range_parse_spec(s, size) {
            RangeParse::Accepted { start, end } => 0 <= start <= end < size,
            _ => true,
        },
{
}

/// Parse an HTTP Range header for a file of `file_size` bytes.
pub fn parse_range_header(range_str: &str, file_size: u64) -> (r: Result<ByteRange, RangeError>)
    ensures
        match r {
            Ok(br) => range_parse_spec(range_str@, file_size as int) == (RangeParse::Accepted {
                start: br.start as int,
                end: br.end_inclusive as int,
            }) && br.start <= br.end_inclusive < file_size,
            Err(RangeError::Unsatisfiable) => range_parse_spec(
                range_str@,
                file_size as int,
            ) is Unsatisfiable,
            Err(RangeError::Malformed) => range_parse_spec(
                range_str@,
                file_size as int,
            ) is Malformed,
        },
{
    let raw = chars_of(range_str);
    let t = exec_trim(&raw);
    let prefix = chars_of("bytes=");
    proof {
        reveal_strlit("bytes=");
    }
    if t.len() < 6 {
        return Err(RangeError::Malformed);
    }
    if !match_at(&t, &prefix, 0) {
        return Err(RangeError::Malformed);
    }
    let body = sub_chars(&t, 6, t.len());
    proof {
        assert(t@.subrange(0, 6) == "bytes="@);
        assert(body@ == t@.subrange(6, t@.len() as int));
    }
    if let Some(_) = exec_first_index_of(&body, ',') {
        return Err(RangeError::Malformed);
    }
    let blen: usize = body.len();
    let dash = exec_first_index_of(&body, '-');
    let (ss_start, ss_end, es_start, es_end): (usize, usize, usize, usize) = match dash {
        Some(d) => (0, d, d + 1, blen),
        None => (0, blen, blen, blen),
    };
    let ghost ss = body@.subrange(ss_start as int, ss_end as int);
    let ghost es = match dash {
        Some(d) => body@.subrange(d + 1, body@.len() as int),
        None => Seq::<char>::empty(),
    };
    proof {
        assert(body@.subrange(0, blen as int) =~= body@);
        if dash is None {
            assert(ss =~= body@);
        }
        assert(body@.subrange(es_start as int, es_end as int) =~= es);
    }
    if ss_start == ss_end {
        // suffix form
        let suffix = match parse_u64_range(&body, es_start, es_end) {
            Some(x) => x,
            None => {
                return Err(RangeError::Malformed);
            },
        };
        let capped: u64 = if suffix <= file_size {
            suffix
        } else {
            file_size
        };
        let start: u64 = file_size - capped;
        if start >= file_size {
            return Err(RangeError::Unsatisfiable);
        }
        Ok(ByteRange { start, end_inclusive: file_size - 1 })
    } else {
        let start = match parse_u64_range(&body, ss_start, ss_end) {
            Some(x) => x,
            None => {
                return Err(RangeError::Malformed);
            },
        };
        if es_start == es_end {
            if start >= file_size {
                return Err(RangeError::Unsatisfiable);
            }
            Ok(ByteRange { start, end_inclusive: file_size - 1 })
        } else {
            let end0 = match parse_u64_range(&body, es_start, es_end) {
                Some(x) => x,
                None => {
                    return Err(RangeError::Malformed);
                },
            };
            if start >= file_size {
                return Err(RangeError::Unsatisfiable);
            }
            let end: u64 = if end0 <= file_size - 1 {
                end0
            } else {
                file_size - 1
            };
            if start > end {
                return Err(RangeError::Malformed);
            }
            Ok(ByteRange { start, end_inclusive: end })
        }
    }
}

// ─── content types ───────────────────────────────────────────────────────

/// The extension of the final path component: the text after its last dot,
/// provided the dot is not its first character.
pub open spec fn path_ext_spec(path: Seq<char>) -> Option<Seq<char>> {
    let name = match last_index_of(path, '/') {
        Some(i) => path.subrange(i + 1, path.len() as int),
        None => path,
    };
    match last_index_of(name, '.') {
        Some(d) => if d > 0 {
            Some(name.subrange(d + 1, name.len() as int))
        } else {
            None
        },
        None => None,
    }
}

/// The Content-Type table for direct-play files, keyed by lowercased
/// extension; unknown extensions are served as octet streams.
pub open spec fn content_type_spec(path: Seq<char>) -> Seq<char> {
    match path_ext_spec(path) {
        None => "application/octet-stream"@,
        Some(e) => {
            let l = lower_seq(e);
            if l == "mp4"@ || l == "m4v"@ {
                "video/mp4"@
            } else if l == "mkv"@ {
                "video/x-matroska"@
            } else if l == "webm"@ {
                "video/webm"@
            } else if l == "avi"@ {
                "video/x-msvideo"@
            } else if l == "mov"@ {
                "video/quicktime"@
            } else if l == "ts"@ || l == "m2ts"@ || l == "mts"@ {
                "video/mp2t"@
            } else if l == "mpg"@ || l == "mpeg"@ || l == "mpe"@ || l == "mpv"@ || l == "vob"@ {
                "video/mpeg"@
            } else if l == "ogv"@ {
                "video/ogg"@
            } else if l == "wmv"@ {
                "video/x-ms-wmv"@
            } else if l == "asf"@ {
                "video/x-ms-asf"@
            } else if l == "flv"@ || l == "f4v"@ {
                "video/x-flv"@
            } else if l == "3gp"@ {
                "video/3gpp"@
            } else if l == "3g2"@ {
                "video/3gpp2"@
            } else if l == "mxf"@ {
                "application/mxf"@
            } else {
                "application/octet-stream"@
            }
        },
    }
}

/// Content-type guess from a file path's extension.
pub fn content_type_for_path(path: &str) -> (r: &'static str)
    ensures
        r@ == content_type_spec(path@),
{
    let v = chars_of(path);
    let vn: usize = v.len();
    let name = match exec_last_index_of(&v, '/') {
        Some(i) => sub_chars(&v, i + 1, vn),
        None => sub_chars(&v, 0, vn),
    };
    proof {
        assert(v@.subrange(0, v@.len() as int) =~= v@);
    }
    let ext: Option<Vec<char>> = match exec_last_index_of(&name, '.') {
        Some(d) => if d > 0 {
            Some(sub_chars(&name, d + 1, name.len()))
        } else {
            None
        },
        None => None,
    };
    match ext {
        None => "application/octet-stream",
        Some(e) => {
            let l = crate::strutil::exec_lower(&e);
            if crate::strutil::chars_eq_str(&l, "mp4") || crate::strutil::chars_eq_str(&l, "m4v") {
                "video/mp4"
            } else if crate::strutil::chars_eq_str(&l, "mkv") {
                "video/x-matroska"
            } else if crate::strutil::chars_eq_str(&l, "webm") {
                "video/webm"
            } else if crate::strutil::chars_eq_str(&l, "avi") {
                "video/x-msvideo"
            } else if crate::strutil::chars_eq_str(&l, "mov") {
                "video/quicktime"
            } else if crate::strutil::chars_eq_str(&l, "ts") || crate::strutil::chars_eq_str(
                &l,
                "m2ts",
            ) || crate::strutil::chars_eq_str(&l, "mts") {
                "video/mp2t"
            } else if crate::strutil::chars_eq_str(&l, "mpg") || crate::strutil::chars_eq_str(
                &l,
                "mpeg",
            ) || crate::strutil::chars_eq_str(&l, "mpe") || crate::strutil::chars_eq_str(&l, "mpv")
                || crate::strutil::chars_eq_str(&l, "vob") {
                "video/mpeg"
            } else if crate::strutil::chars_eq_str(&l, "ogv") {
                "video/ogg"
            } else if crate::strutil::chars_eq_str(&l, "wmv") {
                "video/x-ms-wmv"
            } else if crate::strutil::chars_eq_str(&l, "asf") {
                "video/x-ms-asf"
            } else if crate::strutil::chars_eq_str(&l, "flv") || crate::strutil::chars_eq_str(
                &l,
                "f4v",
            ) {
                "video/x-flv"
            } else if crate::strutil::chars_eq_str(&l, "3gp") {
                "video/3gpp"
            } else if crate::strutil::chars_eq_str(&l, "3g2") {
                "video/3gpp2"
            } else if crate::strutil::chars_eq_str(&l, "mxf") {
                "application/mxf"
            } else {
                "application/octet-stream"
            }
        },
    }
}

// ─── the response plan ───────────────────────────────────────────────────

/// What a stream request should answer: the status, body window, and
/// Content-Type are fixed here; opening and sending the file is I/O done
/// by the caller.
#[derive(Debug, Clone)]
pub enum StreamPlan {
    /// 200 with the whole file.
    Full { content_length: u64, content_type: &'static str },
    /// 206 with the given inclusive window.
    Partial { start: u64, end_inclusive: u64, content_length: u64, content_type: &'static str },
    /// 416 with `Content-Range: bytes */size` and an empty body.
    NotSatisfiable,
    /// 400.
    BadRange,
}

/// Decide the response for a stream request, from the file size, the
/// Range header if one came, and the file path.
pub fn plan_stream_response(file_size: u64, range_header: Option<&str>, path: &str) -> (r:
    StreamPlan)
    ensures
        match range_header {
            None => r matches StreamPlan::Full { content_length, content_type } && content_length
                == file_size && content_type@ == content_type_spec(path@),
            Some(h) => match range_parse_spec(h@, file_size as int) {
                RangeParse::Accepted { start, end } => r matches StreamPlan::Partial {
                    start: s,
                    end_inclusive: e,
                    content_length,
                    content_type,
                } && s == start && e == end && content_length == end - start + 1 && content_type@
                    == content_type_spec(path@),
                RangeParse::Unsatisfiable => r is NotSatisfiable,
                RangeParse::Malformed => r is BadRange,
            },
        },
{
    let content_type = content_type_for_path(path);
    match range_header {
        None => StreamPlan::Full { content_length: file_size, content_type },
        Some(h) => match parse_range_header(h, file_size) {
            Ok(br) => StreamPlan::Partial {
                start: br.start,
                end_inclusive: br.end_inclusive,
                content_length: br.end_inclusive - br.start + 1,
                content_type,
            },
            Err(RangeError::Unsatisfiable) => StreamPlan::NotSatisfiable,
            Err(RangeError::Malformed) => StreamPlan::BadRange,
        },
    }
}


// ─── response headers ────────────────────────────────────────────────────

/// The fixed headers every streamed response carries.
pub open spec fn security_headers() -> Seq<(Seq<char>, Seq<char>)> {
    seq![
        ("Accept-Ranges"@, "bytes"@),
        ("Cache-Control"@, "no-store"@),
        ("Referrer-Policy"@, "no-referrer"@),
        ("X-Content-Type-Options"@, "nosniff"@),
    ]
}

/// The `Content-Range` value of a partial response.
pub open spec fn content_range_text(start: u64, end_inclusive: u64, file_size: u64) -> Seq<char> {
    "bytes "@ + dec_str(start as nat) + "-"@ + dec_str(end_inclusive as nat) + "/"@ + dec_str(
        file_size as nat,
    )
}

/// The `Content-Range` value of an unsatisfiable response.
pub open spec fn unsatisfiable_range_text(file_size: u64) -> Seq<char> {
    "bytes */"@ + dec_str(file_size as nat)
}

/// The header list each plan is served with: content type and length plus
/// the fixed headers for bodies, `Content-Range` on partial and
/// unsatisfiable answers, nothing on a bad request.
pub open spec fn plan_headers_spec(plan: StreamPlan, file_size: u64) -> Seq<
    (Seq<char>, Seq<char>),
> {
    match plan {
        StreamPlan::Full { content_length, content_type } => seq![
            ("Content-Type"@, content_type@),
            ("Content-Length"@, dec_str(content_length as nat)),
        ] + security_headers(),
        StreamPlan::Partial { start, end_inclusive, content_length, content_type } => seq![
            ("Content-Type"@, content_type@),
            ("Content-Length"@, dec_str(content_length as nat)),
            ("Content-Range"@, content_range_text(start, end_inclusive, file_size)),
        ] + security_headers(),
        StreamPlan::NotSatisfiable => seq![
            ("Content-Range"@, unsatisfiable_range_text(file_size)),
        ],
        StreamPlan::BadRange => Seq::empty(),
    }
}

/// The headers to answer a stream plan with.
pub fn plan_response_headers(plan: &StreamPlan, file_size: u64) -> (r: Vec<(String, String)>)
    ensures
        r@.map_values(|p: (String, String)| (p.0@, p.1@)) == plan_headers_spec(*plan, file_size),
{
    let mut out: Vec<(String, String)> = Vec::new();
    match plan {
        StreamPlan::Full { content_length, content_type } => {
            out.push((String::from_str("Content-Type"), String::from_str(content_type)));
            out.push((String::from_str("Content-Length"), u64_to_dec_string(*content_length)));
            push_security_headers(&mut out);
        },
        StreamPlan::Partial { start, end_inclusive, content_length, content_type } => {
            out.push((String::from_str("Content-Type"), String::from_str(content_type)));
            out.push((String::from_str("Content-Length"), u64_to_dec_string(*content_length)));
            let mut range_text = String::from_str("bytes ");
            let s1 = u64_to_dec_string(*start);
            range_text.append(s1.as_str());
            range_text.append("-");
            let s2 = u64_to_dec_string(*end_inclusive);
            range_text.append(s2.as_str());
            range_text.append("/");
            let s3 = u64_to_dec_string(file_size);
            range_text.append(s3.as_str());
            out.push((String::from_str("Content-Range"), range_text));
            push_security_headers(&mut out);
        },
        StreamPlan::NotSatisfiable => {
            let mut range_text = String::from_str("bytes */");
            let s3 = u64_to_dec_string(file_size);
            range_text.append(s3.as_str());
            out.push((String::from_str("Content-Range"), range_text));
        },
        StreamPlan::BadRange => {},
    }
    proof {
        assert(out@.map_values(|p: (String, String)| (p.0@, p.1@)) =~= plan_headers_spec(
            *plan,
            file_size,
        ));
    }
    out
}

fn push_security_headers(out: &mut Vec<(String, String)>)
    ensures
        final(out)@.len() == old(out)@.len() + 4,
        forall|k: int|
            0 <= k < old(out)@.len() ==> #[trigger] final(out)@[k] == old(out)@[k],
        ({
            let n = old(out)@.len() as int;
            &&& (final(out)@[n].0@, final(out)@[n].1@) == ("Accept-Ranges"@, "bytes"@)
            &&& (final(out)@[n + 1].0@, final(out)@[n + 1].1@) == ("Cache-Control"@, "no-store"@)
            &&& (final(out)@[n + 2].0@, final(out)@[n + 2].1@) == (
                "Referrer-Policy"@,
                "no-referrer"@,
            )
            &&& (final(out)@[n + 3].0@, final(out)@[n + 3].1@) == (
                "X-Content-Type-Options"@,
                "nosniff"@,
            )
        }),
{
    out.push((String::from_str("Accept-Ranges"), String::from_str("bytes")));
    out.push((String::from_str("Cache-Control"), String::from_str("no-store")));
    out.push((String::from_str("Referrer-Policy"), String::from_str("no-referrer")));
    out.push((String::from_str("X-Content-Type-Options"), String::from_str("nosniff")));
}

// ─── hex paths ───────────────────────────────────────────────────────────

pub open spec fn is_hex_digit(c: char) -> bool {
    ('0' <= c && c <= '9') || ('a' <= c && c <= 'f') || ('A' <= c && c <= 'F')
}

pub open spec fn hex_val(c: char) -> nat {
    if '0' <= c && c <= '9' {
        (c as nat - '0' as nat) as nat
    } else if 'a' <= c && c <= 'f' {
        (c as nat - 'a' as nat + 10) as nat
    } else {
        (c as nat - 'A' as nat + 10) as nat
    }
}

/// The lowercase hex digit of a value below 16.
pub open spec fn hex_char(d: nat) -> char {
    if d < 10 {
        crate::strutil::digit_char(d)
    } else if d == 10 {
        'a'
    } else if d == 11 {
        'b'
    } else if d == 12 {
        'c'
    } else if d == 13 {
        'd'
    } else if d == 14 {
        'e'
    } else {
        'f'
    }
}

/// The bytes a hex text denotes: two digits per byte, any case; odd-length
/// or non-hex text denotes nothing.
pub open spec fn hex_decode_bytes(s: Seq<char>) -> Option<Seq<u8>> {
    if s.len() % 2 == 0 && (forall|i: int| 0 <= i < s.len() ==> is_hex_digit(#[trigger] s[i])) {
        Some(Seq::new((s.len() / 2) as nat, |i: int| (hex_val(s[2 * i]) * 16 + hex_val(s[2 * i + 1])) as u8))
    } else {
        None
    }
}

/// The lowercase hex text of a byte string, two digits per byte.
pub open spec fn hex_of_bytes(b: Seq<u8>) -> Seq<char>
    decreases b.len(),
{
    if b.len() == 0 {
        Seq::empty()
    } else {
        hex_of_bytes(b.drop_last()) + seq![
            hex_char((b.last() / 16) as nat),
            hex_char((b.last() % 16) as nat),
        ]
    }
}

/// Relies on `String::from_utf8`: decodes exactly the valid UTF-8 byte
/// strings, to the text they encode.
#[verifier::external_body]
fn string_from_utf8(b: Vec<u8>) -> (r: Option<String>)
    ensures
        match r {
            Some(s) => vstd::utf8::valid_utf8(b@) && vstd::utf8::encode_utf8(s@) == b@,
            None => !vstd::utf8::valid_utf8(b@),
        },
{
    match String::from_utf8(b) {
        Ok(s) => Some(s),
        Err(_) => None,
    }
}

fn exec_hex_val(c: char) -> (r: u8)
    requires
        is_hex_digit(c),
    ensures
        r as nat == hex_val(c),
        r < 16,
{
    if '0' <= c && c <= '9' {
        (c as u8) - 48
    } else if 'a' <= c && c <= 'f' {
        (c as u8) - 97 + 10
    } else {
        (c as u8) - 65 + 10
    }
}

fn exec_is_hex_digit(c: char) -> (r: bool)
    ensures
        r == is_hex_digit(c),
{
    ('0' <= c && c <= '9') || ('a' <= c && c <= 'f') || ('A' <= c && c <= 'F')
}

/// Decode a lowercase-hex-of-UTF-8 path text back to the path.
pub fn hex_decode(s: &str) -> (r: Option<String>)
    ensures
        match (r, hex_decode_bytes(s@)) {
            (Some(out), Some(b)) => vstd::utf8::valid_utf8(b) && vstd::utf8::encode_utf8(out@) == b,
            (None, Some(b)) => !vstd::utf8::valid_utf8(b),
            (None, None) => true,
            _ => false,
        },
{
    let v = chars_of(s);
    let n: usize = v.len();
    if n % 2 != 0 {
        return None;
    }
    let mut bytes: Vec<u8> = Vec::new();
    let mut i: usize = 0;
    while i + 1 < n
        invariant
            0 <= i <= n,
            i % 2 == 0,
            n % 2 == 0,
            n == v@.len(),
            v@ == s@,
            forall|j: int| 0 <= j < i ==> is_hex_digit(#[trigger] v@[j]),
            bytes@.len() == i / 2,
            forall|j: int|
                0 <= j < bytes@.len() ==> (#[trigger] bytes@[j]) as nat == hex_val(v@[2 * j]) * 16
                    + hex_val(v@[2 * j + 1]),
        decreases n - i,
    {
        let hi = v[i];
        let lo = v[i + 1];
        if !exec_is_hex_digit(hi) || !exec_is_hex_digit(lo) {
            proof {
                if hex_decode_bytes(s@) is Some {
                    assert(is_hex_digit(s@[i as int]) && is_hex_digit(s@[i + 1 as int]));
                }
            }
            return None;
        }
        let b: u8 = exec_hex_val(hi) * 16 + exec_hex_val(lo);
        bytes.push(b);
        i += 2;
    }
    proof {
        assert(i == n);
        let g = hex_decode_bytes(s@);
        assert(g is Some);
        assert(bytes@ =~= g->Some_0);
    }
    string_from_utf8(bytes)
}

/// Encode a path as the lowercase hex of its UTF-8 bytes, the form the
/// subtitle route uses.
pub fn base64_url_encode(s: &str) -> (r: String)
    ensures
        r@ == hex_of_bytes(s.spec_bytes()),
{
    let bytes = s.as_bytes();
    let n: usize = bytes.len();
    let mut out: Vec<char> = Vec::new();
    let mut i: usize = 0;
    while i < n
        invariant
            0 <= i <= n,
            n == bytes@.len(),
            bytes@ == s.spec_bytes(),
            out@ == hex_of_bytes(bytes@.take(i as int)),
        decreases n - i,
    {
        let b = bytes[i];
        out.push(exec_hex_char(b / 16));
        out.push(exec_hex_char(b % 16));
        proof {
            assert(bytes@.take(i + 1 as int).drop_last() =~= bytes@.take(i as int));
            assert(bytes@.take(i + 1 as int).last() == bytes@[i as int]);
            assert(out@ =~= hex_of_bytes(bytes@.take(i as int)) + seq![
                hex_char((bytes@[i as int] / 16) as nat),
                hex_char((bytes@[i as int] % 16) as nat),
            ]);
        }
        i += 1;
    }
    proof {
        assert(bytes@.take(n as int) =~= bytes@);
    }
    crate::strutil::string_from_chars(&out)
}

fn exec_hex_char(d: u8) -> (c: char)
    requires
        d < 16,
    ensures
        c == hex_char(d as nat),
{
    if d < 10 {
        crate::strutil::exec_digit_char(d as u64)
    } else if d == 10 {
        'a'
    } else if d == 11 {
        'b'
    } else if d == 12 {
        'c'
    } else if d == 13 {
        'd'
    } else if d == 14 {
        'e'
    } else {
        'f'
    }
}

} // verus!

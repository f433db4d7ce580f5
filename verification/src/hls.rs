//! HLS playlist and segment serving helpers: content types and the safety
//! check on requested segment names.

use crate::strutil::{chars_of, is_substr, is_suffix_of, match_at};
use vstd::prelude::*;

verus! {

/// Content-Type for HLS master/variant playlists.
pub const PLAYLIST_CONTENT_TYPE: &'static str = "application/vnd.apple.mpegurl";

/// Content-Type for MPEG-TS segments.
pub const SEGMENT_CONTENT_TYPE_TS: &'static str = "video/MP2T";

/// Content-Type for fMP4 segments.
pub const SEGMENT_CONTENT_TYPE_MP4: &'static str = "video/mp4";

/// Determine segment content type from the filename extension: fMP4 for
/// `.m4s` and `.mp4`, MPEG-TS otherwise.
pub fn segment_content_type(filename: &str) -> (r: &'static str)
    ensures
        (is_suffix_of(".m4s"@, filename@) || is_suffix_of(".mp4"@, filename@)) ==> r@
            == "video/mp4"@,
        !(is_suffix_of(".m4s"@, filename@) || is_suffix_of(".mp4"@, filename@)) ==> r@
            == "video/MP2T"@,
{
    let v = chars_of(filename);
    if ends_with_str(&v, ".m4s") || ends_with_str(&v, ".mp4") {
        SEGMENT_CONTENT_TYPE_MP4
    } else {
        SEGMENT_CONTENT_TYPE_TS
    }
}

fn ends_with_str(v: &Vec<char>, suffix: &str) -> (r: bool)
    ensures
        r == is_suffix_of(suffix@, v@),
{
    let sv = chars_of(suffix);
    if sv.len() > v.len() {
        return false;
    }
    let r = match_at(v, &sv, v.len() - sv.len());
    proof {
        if r {
            assert(is_suffix_of(suffix@, v@));
        }
    }
    r
}

/// A requested HLS file name is safe when it holds no `..` and no path
/// separator; only such names may be joined onto a session's directory.
pub open spec fn safe_segment_name(s: Seq<char>) -> bool {
    &&& !is_substr(s, ".."@)
    &&& forall|i: int| 0 <= i < s.len() ==> s[i] != '/' && s[i] != '\\'
}

/// Check that a requested file name cannot escape the session directory.
pub fn is_safe_segment_name(filename: &str) -> (r: bool)
    ensures
        r == safe_segment_name(filename@),
{
    let v = chars_of(filename);
    let dots = chars_of("..");
    if crate::strutil::contains_sub(&v, &dots) {
        return false;
    }
    let n: usize = v.len();
    let mut i: usize = 0;
    while i < n
        invariant
            0 <= i <= n,
            n == v@.len(),
            v@ == filename@,
            !is_substr(filename@, ".."@),
            forall|j: int| 0 <= j < i ==> v@[j] != '/' && v@[j] != '\\',
        decreases n - i,
    {
        if v[i] == '/' || v[i] == '\\' {
            return false;
        }
        i += 1;
    }
    true
}

} // verus!

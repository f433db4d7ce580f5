//! Stream authentication rules: which credential a stream request uses, and
//! the file scoping of short-lived stream tokens.
//!
//! Issuing and decoding the tokens themselves is the bearer-token issuer's
//! work, outside the library; the selection and scoping rules live here.

use crate::strutil::{chars_of, is_prefix_of, starts_with_chars, str_eq};
use vstd::prelude::*;

verus! {

/// Bearer-token claims.
#[derive(Debug, Clone)]
pub struct Claims {
    pub sub: String,
    pub username: String,
    pub role: String,
    pub exp: usize,
}

/// Short-lived token claims used only for streaming URLs; it may be bound
/// to one file or session.
#[derive(Debug, Clone)]
pub struct StreamClaims {
    pub sub: String,
    pub role: String,
    pub aud: String,
    pub file_id: Option<String>,
    pub session_id: Option<String>,
    pub exp: usize,
}

/// The query parameters a stream request may carry.
#[derive(Debug, Clone)]
pub struct StreamAuthQuery {
    pub st: Option<String>,
    pub token: Option<String>,
}

/// Which credential a stream request presents.
#[derive(Debug, Clone, PartialEq, Eq, Structural)]
pub enum StreamCredential {
    /// Validate the `Authorization` bearer token.
    Bearer,
    /// Validate the `st` stream token.
    StreamToken,
    /// Refused: the legacy `token` query parameter leaks into histories.
    LegacyRejected,
    /// Refused: no credential at all.
    Missing,
}

/// The selection rule: a bearer token wins, then the `st` stream token;
/// a legacy `token` parameter is rejected outright; else nothing was sent.
pub open spec fn stream_credential_spec(
    has_bearer: bool,
    has_stream_token: bool,
    has_legacy_token: bool,
) -> StreamCredential {
    if has_bearer {
        StreamCredential::Bearer
    } else if has_stream_token {
        StreamCredential::StreamToken
    } else if has_legacy_token {
        StreamCredential::LegacyRejected
    } else {
        StreamCredential::Missing
    }
}

/// Pick the credential a stream request presents.
pub fn choose_stream_credential(bearer: &Option<String>, query: &StreamAuthQuery) -> (r:
    StreamCredential)
    ensures
        r == stream_credential_spec(bearer is Some, query.st is Some, query.token is Some),
{
    if bearer.is_some() {
        StreamCredential::Bearer
    } else if query.st.is_some() {
        StreamCredential::StreamToken
    } else if query.token.is_some() {
        StreamCredential::LegacyRejected
    } else {
        StreamCredential::Missing
    }
}

/// A stream token bound to a file authorises exactly that file; an unbound
/// token authorises any file.
pub open spec fn scope_ok_spec(claims_file_id: Option<Seq<char>>, file_id: Seq<char>) -> bool {
    match claims_file_id {
        Some(f) => f == file_id,
        None => true,
    }
}

/// Whether a stream token's file binding admits this file.
pub fn stream_scope_ok(claims: &StreamClaims, file_id: &str) -> (r: bool)
    ensures
        r == scope_ok_spec(
            match claims.file_id {
                Some(f) => Some(f@),
                None => None,
            },
            file_id@,
        ),
{
    match &claims.file_id {
        Some(f) => str_eq(f.as_str(), file_id),
        None => true,
    }
}

/// The audience a stream token must carry.
pub fn stream_audience_ok(claims: &StreamClaims) -> (r: bool)
    ensures
        r == (claims.aud@ == "stream"@),
{
    str_eq(claims.aud.as_str(), "stream")
}

/// An admin role, as recorded in claims.
pub fn is_admin_role(role: &str) -> (r: bool)
    ensures
        r == (role@ == "admin"@),
{
    str_eq(role, "admin")
}


// ─── library-root path authorization ─────────────────────────────────────

/// A (canonicalized) file path is authorized when it lies under one of the
/// allowed (canonicalized) library roots. Canonicalizing is filesystem work
/// done by the caller; the prefix rule lives here.
pub open spec fn path_authorized(path: Seq<char>, roots: Seq<Seq<char>>) -> bool {
    exists|i: int| 0 <= i < roots.len() && is_prefix_of(#[trigger] roots[i], path)
}

/// Whether the path lies under one of the allowed roots.
pub fn path_under_roots(path: &str, roots: &Vec<String>) -> (r: bool)
    ensures
        r == path_authorized(path@, roots@.map_values(|s: String| s@)),
{
    let pv = chars_of(path);
    let n: usize = roots.len();
    let mut i: usize = 0;
    while i < n
        invariant
            0 <= i <= n,
            n == roots@.len(),
            pv@ == path@,
            forall|j: int|
                0 <= j < i ==> !is_prefix_of((#[trigger] roots@[j])@, path@),
        decreases n - i,
    {
        proof {
            assert(roots@.map_values(|s: String| s@)[i as int] == roots@[i as int]@);
        }
        let rv = chars_of(roots[i].as_str());
        if starts_with_chars(&pv, &rv) {
            proof {
                let m = roots@.map_values(|s: String| s@);
                assert(is_prefix_of(m[i as int], path@));
            }
            return true;
        }
        i += 1;
    }
    proof {
        let m = roots@.map_values(|s: String| s@);
        if path_authorized(path@, m) {
            let w = choose|w: int| 0 <= w < m.len() && is_prefix_of(#[trigger] m[w], path@);
            assert(!is_prefix_of(roots@[w]@, path@));
        }
    }
    false
}

// ─── the access decision, in order ───────────────────────────────────────

/// How a stream request is answered, checks in order: no usable credential
/// is unauthorized; a token bound to another file is forbidden; an unknown
/// or absent file is not found; a path outside the allowed roots is
/// forbidden; otherwise bytes may flow.
#[derive(Debug, Clone, Copy, PartialEq, Eq, Structural)]
pub enum StreamAccess {
    Unauthorized,
    ForbiddenScope,
    NotFoundFile,
    ForbiddenPath,
    Allowed,
}

/// The §-order of the checks: credential, scope, file, path.
pub open spec fn stream_access_spec(
    credential: StreamCredential,
    credential_valid: bool,
    scope_ok: bool,
    file_found: bool,
    file_on_disk: bool,
    path_allowed: bool,
) -> StreamAccess {
    if credential is LegacyRejected || credential is Missing || !credential_valid {
        StreamAccess::Unauthorized
    } else if !scope_ok {
        StreamAccess::ForbiddenScope
    } else if !file_found || !file_on_disk {
        StreamAccess::NotFoundFile
    } else if !path_allowed {
        StreamAccess::ForbiddenPath
    } else {
        StreamAccess::Allowed
    }
}

/// Decide a stream request, given what the caller established: which
/// credential came and whether it decoded, whether its file binding admits
/// the file, whether the file row exists and the file is on disk, and
/// whether the canonical path lies under an allowed root.
pub fn stream_access_check(
    credential: StreamCredential,
    credential_valid: bool,
    scope_ok: bool,
    file_found: bool,
    file_on_disk: bool,
    path_allowed: bool,
) -> (r: StreamAccess)
    ensures
        r == stream_access_spec(
            credential,
            credential_valid,
            scope_ok,
            file_found,
            file_on_disk,
            path_allowed,
        ),
{
    match credential {
        StreamCredential::LegacyRejected | StreamCredential::Missing => {
            return StreamAccess::Unauthorized;
        },
        _ => {},
    }
    if !credential_valid {
        StreamAccess::Unauthorized
    } else if !scope_ok {
        StreamAccess::ForbiddenScope
    } else if !file_found || !file_on_disk {
        StreamAccess::NotFoundFile
    } else if !path_allowed {
        StreamAccess::ForbiddenPath
    } else {
        StreamAccess::Allowed
    }
}

} // verus!

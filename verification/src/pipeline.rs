//! Shared user-account rules: credential validation, library-id
//! normalisation, and account creation with library access.

use crate::setup::{field_error_views, FieldError};
use crate::store::{Store, StoreError};
use crate::strutil::{
    chars_of, is_ascii_lower, is_ascii_upper, is_digit_char, string_from_chars, trim_spec,
};
use crate::types::UserRole;
use vstd::prelude::*;
use vstd::string::StringExecFns;

verus! {

/// The shortest password accepted.
pub const MIN_PASSWORD_LEN: usize = 12;

/// The characters a username may hold.
pub open spec fn is_username_char(c: char) -> bool {
    is_ascii_upper(c) || is_ascii_lower(c) || is_digit_char(c) || c == '.' || c == '_' || c == '-'
}

/// A well-formed username: 3 to 32 characters of letters, digits, dots,
/// underscores and dashes.
pub open spec fn valid_username(s: Seq<char>) -> bool {
    3 <= s.len() <= 32 && forall|i: int| 0 <= i < s.len() ==> is_username_char(#[trigger] s[i])
}

/// A well-formed password: 12 to 1024 characters.
pub open spec fn valid_password(s: Seq<char>) -> bool {
    12 <= s.len() <= 1024
}

/// The credential validation rule, as the exact error list.
pub open spec fn credential_errors_spec(username: Seq<char>, password: Seq<char>) -> Seq<
    (Seq<char>, Seq<char>),
> {
    let e0: Seq<(Seq<char>, Seq<char>)> = if !valid_username(username) {
        seq![("username"@, "must be 3 to 32 letters, digits, dots, underscores or dashes"@)]
    } else {
        Seq::empty()
    };
    if !valid_password(password) {
        e0.push(("password"@, "must be between 12 and 1024 characters"@))
    } else {
        e0
    }
}

/// Validate username and password; `None` means both pass.
pub fn validate_username_password(username: &str, password: &str) -> (r: Option<Vec<FieldError>>)
    ensures
        ({
            let g = credential_errors_spec(username@, password@);
            match r {
                Some(v) => field_error_views(v@) == g && g.len() > 0,
                None => g.len() == 0,
            }
        }),
        (r is None) == (valid_username(username@) && valid_password(password@)),
{
    let mut v: Vec<FieldError> = Vec::new();
    if !exec_valid_username(username) {
        v.push(
            FieldError {
                field: String::from_str("username"),
                message: String::from_str(
                    "must be 3 to 32 letters, digits, dots, underscores or dashes",
                ),
            },
        );
    }
    let pn = password.unicode_len();
    let ghost before = v@;
    if pn < MIN_PASSWORD_LEN || pn > 1024 {
        v.push(
            FieldError {
                field: String::from_str("password"),
                message: String::from_str("must be between 12 and 1024 characters"),
            },
        );
    }
    proof {
        assert(field_error_views(v@) =~= credential_errors_spec(username@, password@));
    }
    if v.len() == 0 {
        proof {
            assert(field_error_views(v@) =~= Seq::<(Seq<char>, Seq<char>)>::empty());
        }
        None
    } else {
        Some(v)
    }
}

fn exec_valid_username(s: &str) -> (r: bool)
    ensures
        r == valid_username(s@),
{
    let v = chars_of(s);
    let n: usize = v.len();
    if n < 3 || n > 32 {
        return false;
    }
    let mut i: usize = 0;
    while i < n
        invariant
            0 <= i <= n,
            n == v@.len(),
            v@ == s@,
            forall|j: int| 0 <= j < i ==> is_username_char(#[trigger] v@[j]),
        decreases n - i,
    {
        let c = v[i];
        let ok = ('A' <= c && c <= 'Z') || ('a' <= c && c <= 'z') || ('0' <= c && c <= '9') || c
            == '.' || c == '_' || c == '-';
        if !ok {
            return false;
        }
        i += 1;
    }
    true
}

// ─── library-id normalisation ────────────────────────────────────────────

/// Trim each id, drop empties, and keep the first occurrence of each.
pub open spec fn normalize_from(ids: Seq<Seq<char>>, i: int, acc: Seq<Seq<char>>) -> Seq<
    Seq<char>,
>
    decreases ids.len() - i,
{
    if i < 0 || i >= ids.len() {
        acc
    } else {
        let t = trim_spec(ids[i]);
        if t.len() == 0 || acc.contains(t) {
            normalize_from(ids, i + 1, acc)
        } else {
            normalize_from(ids, i + 1, acc.push(t))
        }
    }
}

pub open spec fn normalize_spec(ids: Seq<Seq<char>>) -> Seq<Seq<char>> {
    normalize_from(ids, 0, Seq::empty())
}

/// Deduplicate and trim library IDs, keeping first occurrences in order.
pub fn normalize_library_ids(ids: &Vec<String>) -> (r: Vec<String>)
    ensures
        r@.map_values(|s: String| s@) == normalize_spec(ids@.map_values(|s: String| s@)),
{
    let ghost gids = ids@.map_values(|s: String| s@);
    let n: usize = ids.len();
    let mut out: Vec<String> = Vec::new();
    proof {
        assert(out@.map_values(|s: String| s@) =~= Seq::<Seq<char>>::empty());
    }
    let mut i: usize = 0;
    while i < n
        invariant
            0 <= i <= n,
            n == gids.len(),
            gids == ids@.map_values(|s: String| s@),
            normalize_spec(gids) == normalize_from(
                gids,
                i as int,
                out@.map_values(|s: String| s@),
            ),
        decreases n - i,
    {
        proof {
            assert(gids[i as int] == ids@[i as int]@);
        }
        let cv = chars_of(ids[i].as_str());
        let t = crate::strutil::exec_trim(&cv);
        let ghost gout = out@.map_values(|s: String| s@);
        if t.len() > 0 && !contains_string(&out, &t) {
            out.push(string_from_chars(&t));
            proof {
                assert(out@.map_values(|s: String| s@) =~= gout.push(t@));
            }
        }
        i += 1;
    }
    out
}

/// Whether some element of `v` holds exactly the characters of `t`.
fn contains_string(v: &Vec<String>, t: &Vec<char>) -> (r: bool)
    ensures
        r == v@.map_values(|s: String| s@).contains(t@),
{
    let n: usize = v.len();
    let mut i: usize = 0;
    while i < n
        invariant
            0 <= i <= n,
            n == v@.len(),
            forall|j: int| 0 <= j < i ==> (#[trigger] v@[j])@ != t@,
        decreases n - i,
    {
        proof {
            assert(v@.map_values(|s: String| s@)[i as int] == v@[i as int]@);
        }
        let sv = chars_of(v[i].as_str());
        if crate::strutil::chars_eq(&sv, t) {
            proof {
                assert(v@.map_values(|s: String| s@)[i as int] == t@);
            }
            return true;
        }
        i += 1;
    }
    proof {
        if v@.map_values(|s: String| s@).contains(t@) {
            let m = v@.map_values(|s: String| s@);
            let w = choose|w: int| 0 <= w < m.len() && m[w] == t@;
            assert(v@[w]@ == t@);
        }
    }
    false
}

// ─── account creation ────────────────────────────────────────────────────

/// Why an account could not be created.
#[derive(Debug)]
pub enum CreateUserError {
    /// A field failed validation; carries the failures.
    Validation(Vec<FieldError>),
    /// A named library does not exist; carries the unknown id.
    UnknownLibrary(String),
    /// The store refused the write.
    Store(StoreError),
}

/// Create a user with a role and library access: credentials are validated,
/// ordinary users need at least one library, admins may not be restricted to
/// libraries, every named library must exist, and the username must be free.
pub fn create_user_with_access(
    store: &mut Store,
    username: &str,
    password: &str,
    role: UserRole,
    library_ids: &Vec<String>,
    now_ts: i64,
) -> (r: Result<String, CreateUserError>)
    requires
        old(store).inv(),
    ensures
        final(store).inv(),
        match r {
            Ok(_) => {
                &&& valid_username(username@)
                &&& valid_password(password@)
                &&& ({
                    let norm = normalize_spec(library_ids@.map_values(|s: String| s@));
                    &&& (role is User ==> norm.len() > 0)
                    &&& (role is Admin ==> norm.len() == 0)
                })
                &&& final(store).model().users.len() == old(store).model().users.len() + 1
                &&& final(store).model().users.last().username == username@
                &&& final(store).model().users.last().role == role
            },
            Err(CreateUserError::Validation(_)) => *final(store) == *old(store),
            Err(CreateUserError::UnknownLibrary(_)) => *final(store) == *old(store),
            Err(CreateUserError::Store(StoreError::Conflict)) => crate::store::find_user_by_name_from(
                old(store).model().users,
                0,
                username@,
            ) is Some && final(store).model() == old(store).model(),
            Err(CreateUserError::Store(StoreError::Full)) => old(store).model().next_id
                == u64::MAX && final(store).model() == old(store).model(),
            Err(CreateUserError::Store(StoreError::Internal)) => final(store).model() == old(
                store,
            ).model(),
            Err(CreateUserError::Store(StoreError::NotFound)) => false,
        },
{
    match validate_username_password(username, password) {
        Some(fields) => {
            return Err(CreateUserError::Validation(fields));
        },
        None => {},
    }
    let normalized = normalize_library_ids(library_ids);
    match role {
        UserRole::User => {
            if normalized.len() == 0 {
                let mut v: Vec<FieldError> = Vec::new();
                v.push(
                    FieldError {
                        field: String::from_str("library_ids"),
                        message: String::from_str(
                            "user accounts must include at least one library",
                        ),
                    },
                );
                return Err(CreateUserError::Validation(v));
            }
        },
        UserRole::Admin => {
            if normalized.len() > 0 {
                let mut v: Vec<FieldError> = Vec::new();
                v.push(
                    FieldError {
                        field: String::from_str("library_ids"),
                        message: String::from_str(
                            "admin users cannot be limited to specific libraries",
                        ),
                    },
                );
                return Err(CreateUserError::Validation(v));
            }
        },
    }
    // every named library must exist
    let nl: usize = normalized.len();
    let mut i: usize = 0;
    while i < nl
        invariant
            0 <= i <= nl,
            nl == normalized@.len(),
            store.inv(),
            *store == *old(store),
        decreases nl - i,
    {
        if store.get_library(normalized[i].as_str()).is_none() {
            return Err(CreateUserError::UnknownLibrary(normalized[i].clone()));
        }
        i += 1;
    }
    let id = match store.create_user(username, password, role, now_ts) {
        Ok(id) => id,
        Err(e) => {
            return Err(CreateUserError::Store(e));
        },
    };
    match role {
        UserRole::User => {
            store.set_library_access(id.as_str(), &normalized);
        },
        UserRole::Admin => {},
    }
    Ok(id)
}

} // verus!

//! The first-run setup flow: its state machine, field validation, the
//! owner-token check, the claim/release decision, and the write rate limit.
//!
//! Reading and writing the underlying settings, and the HTTP plumbing, live
//! outside the library; the rules live here.

use crate::strutil::{chars_of, is_ascii_upper, str_eq};
use vstd::prelude::*;
use vstd::string::StringExecFns;

verus! {

// ─── the setup state machine ─────────────────────────────────────────────

/// Setup progresses through these states in order and never backwards.
#[derive(Debug, Clone, Copy, PartialEq, Eq, Structural)]
pub enum SetupState {
    NotStarted,
    SessionClaimed,
    ServerConfigSaved,
    AdminCreated,
    LibrariesSaved,
    MetadataSaved,
    NetworkSaved,
    Completed,
}

impl SetupState {
    /// The stable string form persisted in settings.
    pub fn as_str(&self) -> (r: &'static str)
        ensures
            *self is NotStarted ==> r@ == "NotStarted"@,
            *self is SessionClaimed ==> r@ == "SessionClaimed"@,
            *self is ServerConfigSaved ==> r@ == "ServerConfigSaved"@,
            *self is AdminCreated ==> r@ == "AdminCreated"@,
            *self is LibrariesSaved ==> r@ == "LibrariesSaved"@,
            *self is MetadataSaved ==> r@ == "MetadataSaved"@,
            *self is NetworkSaved ==> r@ == "NetworkSaved"@,
            *self is Completed ==> r@ == "Completed"@,
    {
        match self {
            Self::NotStarted => "NotStarted",
            Self::SessionClaimed => "SessionClaimed",
            Self::ServerConfigSaved => "ServerConfigSaved",
            Self::AdminCreated => "AdminCreated",
            Self::LibrariesSaved => "LibrariesSaved",
            Self::MetadataSaved => "MetadataSaved",
            Self::NetworkSaved => "NetworkSaved",
            Self::Completed => "Completed",
        }
    }

    /// Read a state back from its string form; `from_str` and `as_str` are
    /// inverse to each other.
    pub fn from_str(s: &str) -> (r: Option<Self>)
        ensures
            s@ == "NotStarted"@ ==> r == Some(SetupState::NotStarted),
            s@ == "SessionClaimed"@ ==> r == Some(SetupState::SessionClaimed),
            s@ == "ServerConfigSaved"@ ==> r == Some(SetupState::ServerConfigSaved),
            s@ == "AdminCreated"@ ==> r == Some(SetupState::AdminCreated),
            s@ == "LibrariesSaved"@ ==> r == Some(SetupState::LibrariesSaved),
            s@ == "MetadataSaved"@ ==> r == Some(SetupState::MetadataSaved),
            s@ == "NetworkSaved"@ ==> r == Some(SetupState::NetworkSaved),
            s@ == "Completed"@ ==> r == Some(SetupState::Completed),
            match r {
                Some(st) => s@ == st.as_str_spec(),
                None => true,
            },
    {
        proof {
            reveal_strlit("NotStarted");
            reveal_strlit("SessionClaimed");
            reveal_strlit("ServerConfigSaved");
            reveal_strlit("AdminCreated");
            reveal_strlit("LibrariesSaved");
            reveal_strlit("MetadataSaved");
            reveal_strlit("NetworkSaved");
            reveal_strlit("Completed");
            assert("NotStarted"@.len() == 10);
            assert("SessionClaimed"@.len() == 14);
            assert("ServerConfigSaved"@.len() == 17);
            assert("AdminCreated"@.len() == 12);
            assert("LibrariesSaved"@.len() == 14);
            assert("MetadataSaved"@.len() == 13);
            assert("NetworkSaved"@.len() == 12);
            assert("Completed"@.len() == 9);
            assert("SessionClaimed"@[0] == 'S');
            assert("LibrariesSaved"@[0] == 'L');
            assert("AdminCreated"@[0] == 'A');
            assert("NetworkSaved"@[0] == 'N');
        }
        if str_eq(s, "NotStarted") {
            Some(Self::NotStarted)
        } else if str_eq(s, "SessionClaimed") {
            Some(Self::SessionClaimed)
        } else if str_eq(s, "ServerConfigSaved") {
            Some(Self::ServerConfigSaved)
        } else if str_eq(s, "AdminCreated") {
            Some(Self::AdminCreated)
        } else if str_eq(s, "LibrariesSaved") {
            Some(Self::LibrariesSaved)
        } else if str_eq(s, "MetadataSaved") {
            Some(Self::MetadataSaved)
        } else if str_eq(s, "NetworkSaved") {
            Some(Self::NetworkSaved)
        } else if str_eq(s, "Completed") {
            Some(Self::Completed)
        } else {
            None
        }
    }

    /// The string form, as a spec.
    pub open spec fn as_str_spec(self) -> Seq<char> {
        match self {
            Self::NotStarted => "NotStarted"@,
            Self::SessionClaimed => "SessionClaimed"@,
            Self::ServerConfigSaved => "ServerConfigSaved"@,
            Self::AdminCreated => "AdminCreated"@,
            Self::LibrariesSaved => "LibrariesSaved"@,
            Self::MetadataSaved => "MetadataSaved"@,
            Self::NetworkSaved => "NetworkSaved"@,
            Self::Completed => "Completed"@,
        }
    }

    /// Position in the setup order.
    pub open spec fn spec_ordinal(self) -> int {
        match self {
            Self::NotStarted => 0,
            Self::SessionClaimed => 1,
            Self::ServerConfigSaved => 2,
            Self::AdminCreated => 3,
            Self::LibrariesSaved => 4,
            Self::MetadataSaved => 5,
            Self::NetworkSaved => 6,
            Self::Completed => 7,
        }
    }

    /// Position in the setup order.
    pub fn ordinal(&self) -> (r: u8)
        ensures
            r as int == self.spec_ordinal(),
    {
        match self {
            Self::NotStarted => 0,
            Self::SessionClaimed => 1,
            Self::ServerConfigSaved => 2,
            Self::AdminCreated => 3,
            Self::LibrariesSaved => 4,
            Self::MetadataSaved => 5,
            Self::NetworkSaved => 6,
            Self::Completed => 7,
        }
    }

    /// Check if the current state is at least the given minimum state.
    pub fn is_at_least(&self, min: SetupState) -> (r: bool)
        ensures
            r == (self.spec_ordinal() >= min.spec_ordinal()),
    {
        self.ordinal() >= min.ordinal()
    }

    /// Check if setup is completed.
    pub fn is_completed(&self) -> (r: bool)
        ensures
            r == (*self is Completed),
    {
        match self {
            Self::Completed => true,
            _ => false,
        }
    }
}

// ─── setup session rows and the claim decision ───────────────────────────

/// The single active setup session, as persisted.
#[derive(Debug, Clone)]
pub struct SetupSessionRow {
    pub owner_token_hash: String,
    pub client_name: String,
    pub claimed_ts: i64,
    pub expires_at: i64,
}

/// What a claim request should do.
#[derive(Debug, Clone, Copy, PartialEq, Eq, Structural)]
pub enum ClaimDecision {
    /// Refuse: setup already completed (a state violation).
    AlreadyCompleted,
    /// Refuse: the request's client name is empty or too long.
    InvalidClientName,
    /// Refuse: another client holds the session and no confirmed takeover
    /// was requested.
    Claimed,
    /// Accept: claim (or take over) the session.
    Claim,
}

/// The claim rule: a completed setup refuses; the client name must hold 1 to
/// 128 characters; an existing session stands unless the request both forces
/// and confirms the takeover.
pub open spec fn claim_decision_spec(
    setup_completed: bool,
    client_name: Seq<char>,
    has_active_session: bool,
    force: bool,
    confirm_takeover: bool,
) -> ClaimDecision {
    if setup_completed {
        ClaimDecision::AlreadyCompleted
    } else if client_name.len() == 0 || client_name.len() > 128 {
        ClaimDecision::InvalidClientName
    } else if has_active_session && !(force && confirm_takeover) {
        ClaimDecision::Claimed
    } else {
        ClaimDecision::Claim
    }
}

/// Decide a claim request.
pub fn decide_claim(
    setup_completed: bool,
    client_name: &str,
    has_active_session: bool,
    force: bool,
    confirm_takeover: bool,
) -> (r: ClaimDecision)
    ensures
        r == claim_decision_spec(
            setup_completed,
            client_name@,
            has_active_session,
            force,
            confirm_takeover,
        ),
{
    if setup_completed {
        ClaimDecision::AlreadyCompleted
    } else {
        let n = client_name.unicode_len();
        if n == 0 || n > 128 {
            ClaimDecision::InvalidClientName
        } else if has_active_session && !(force && confirm_takeover) {
            ClaimDecision::Claimed
        } else {
            ClaimDecision::Claim
        }
    }
}

// ─── owner-token hashing and comparison ──────────────────────────────────

/// The lowercase hex SHA-256 digest of a token's UTF-8 bytes: a function of
/// the token alone.
pub uninterp spec fn sha256_hex_of(token: Seq<char>) -> Seq<char>;

/// Relies on `sha2::Sha256` and `hex::encode`: the digest of the token's
/// bytes, rendered as 64 lowercase hex characters.
#[verifier::external_body]
pub fn hash_token(token: &str) -> (r: String)
    ensures
        r@ == sha256_hex_of(token@),
        r@.len() == 64,
{
    let mut hasher: sha2::Sha256 = sha2::Digest::new();
    sha2::Digest::update(&mut hasher, token.as_bytes());
    hex::encode(sha2::Digest::finalize(hasher))
}

/// Relies on `subtle::ConstantTimeEq` for byte slices: equality decided in
/// constant time (short-circuiting only on length), and UTF-8 encoding
/// being injective.
#[verifier::external_body]
fn constant_time_eq(a: &str, b: &str) -> (r: bool)
    ensures
        r == (a@ == b@),
{
    let a_bytes = a.as_bytes();
    let b_bytes = b.as_bytes();
    if a_bytes.len() != b_bytes.len() {
        return false;
    }
    subtle::ConstantTimeEq::ct_eq(a_bytes, b_bytes).into()
}

/// Whether a presented owner token matches the stored hash.
pub fn check_setup_token(provided: &str, stored_hash: &str) -> (r: bool)
    ensures
        r == (sha256_hex_of(provided@) == stored_hash@),
{
    let provided_hash = hash_token(provided);
    constant_time_eq(provided_hash.as_str(), stored_hash)
}

// ─── field validation ────────────────────────────────────────────────────

/// One field-level validation failure: the field and what it must satisfy.
#[derive(Debug, Clone)]
pub struct FieldError {
    pub field: String,
    pub message: String,
}

pub open spec fn fe(field: Seq<char>, message: Seq<char>) -> (Seq<char>, Seq<char>) {
    (field, message)
}

pub open spec fn field_error_views(v: Seq<FieldError>) -> Seq<(Seq<char>, Seq<char>)> {
    v.map_values(|e: FieldError| (e.field@, e.message@))
}

fn push_fe(v: &mut Vec<FieldError>, field: &str, message: &str)
    ensures
        field_error_views(final(v)@) =~= field_error_views(old(v)@).push((field@, message@)),
{
    v.push(FieldError { field: String::from_str(field), message: String::from_str(message) });
    proof {
        assert(field_error_views(v@) =~= field_error_views(old(v)@).push((field@, message@)));
    }
}

/// The server-config validation rule, as the exact error list.
pub open spec fn config_errors_spec(
    server_name: Seq<char>,
    locale: Seq<char>,
    region: Seq<char>,
    time_zone: Option<Seq<char>>,
) -> Seq<(Seq<char>, Seq<char>)> {
    let e0: Seq<(Seq<char>, Seq<char>)> = if server_name.len() == 0 || server_name.len() > 64 {
        seq![fe("server_name"@, "must be between 1 and 64 characters"@)]
    } else {
        Seq::empty()
    };
    let e1 = if locale.len() < 2 || locale.len() > 32 {
        e0.push(fe("default_ui_locale"@, "must be between 2 and 32 characters (BCP-47)"@))
    } else {
        e0
    };
    let e2 = if !is_region(region) {
        e1.push(fe("default_region"@, "must be ISO 3166-1 alpha-2 (two uppercase letters)"@))
    } else {
        e1
    };
    match time_zone {
        Some(tz) => if tz.len() > 64 {
            e2.push(fe("default_time_zone"@, "must be at most 64 characters"@))
        } else {
            e2
        },
        None => e2,
    }
}

/// Two uppercase ASCII letters.
pub open spec fn is_region(s: Seq<char>) -> bool {
    s.len() == 2 && is_ascii_upper(s[0]) && is_ascii_upper(s[1])
}

fn exec_is_region(s: &str) -> (r: bool)
    ensures
        r == is_region(s@),
{
    let v = chars_of(s);
    v.len() == 2 && crate::strutil::exec_is_upper(v[0]) && crate::strutil::exec_is_upper(v[1])
}

/// Validate the server-config fields; `None` means all fields pass.
pub fn validate_config(server_name: &str, locale: &str, region: &str, time_zone: &Option<String>)
    -> (r: Option<Vec<FieldError>>)
    ensures
        ({
            let g = config_errors_spec(
                server_name@,
                locale@,
                region@,
                match time_zone {
                    Some(t) => Some(t@),
                    None => None,
                },
            );
            match r {
                Some(v) => field_error_views(v@) == g && g.len() > 0,
                None => g.len() == 0,
            }
        }),
{
    let mut v: Vec<FieldError> = Vec::new();
    let sn = server_name.unicode_len();
    if sn == 0 || sn > 64 {
        push_fe(&mut v, "server_name", "must be between 1 and 64 characters");
    }
    let ln = locale.unicode_len();
    if ln < 2 || ln > 32 {
        push_fe(&mut v, "default_ui_locale", "must be between 2 and 32 characters (BCP-47)");
    }
    if !exec_is_region(region) {
        push_fe(&mut v, "default_region", "must be ISO 3166-1 alpha-2 (two uppercase letters)");
    }
    match time_zone {
        Some(tz) => {
            if tz.as_str().unicode_len() > 64 {
                push_fe(&mut v, "default_time_zone", "must be at most 64 characters");
            }
        },
        None => {},
    }
    if v.len() == 0 {
        proof {
            assert(field_error_views(v@) =~= Seq::<(Seq<char>, Seq<char>)>::empty());
        }
        None
    } else {
        Some(v)
    }
}

/// The metadata validation rule, as the exact error list.
pub open spec fn metadata_errors_spec(language: Seq<char>, region: Seq<char>) -> Seq<
    (Seq<char>, Seq<char>),
> {
    let e0: Seq<(Seq<char>, Seq<char>)> = if language.len() < 2 || language.len() > 32 {
        seq![fe("metadata_language"@, "must be between 2 and 32 characters"@)]
    } else {
        Seq::empty()
    };
    if !is_region(region) {
        e0.push(fe("metadata_region"@, "must be ISO 3166-1 alpha-2 (two uppercase letters)"@))
    } else {
        e0
    }
}

/// Validate the metadata fields; `None` means all fields pass.
pub fn validate_metadata(language: &str, region: &str) -> (r: Option<Vec<FieldError>>)
    ensures
        ({
            let g = metadata_errors_spec(language@, region@);
            match r {
                Some(v) => field_error_views(v@) == g && g.len() > 0,
                None => g.len() == 0,
            }
        }),
{
    let mut v: Vec<FieldError> = Vec::new();
    let ln = language.unicode_len();
    if ln < 2 || ln > 32 {
        push_fe(&mut v, "metadata_language", "must be between 2 and 32 characters");
    }
    if !exec_is_region(region) {
        push_fe(&mut v, "metadata_region", "must be ISO 3166-1 alpha-2 (two uppercase letters)");
    }
    if v.len() == 0 {
        proof {
            assert(field_error_views(v@) =~= Seq::<(Seq<char>, Seq<char>)>::empty());
        }
        None
    } else {
        Some(v)
    }
}

/// The network validation rule: at most 64 trusted proxies.
pub fn validate_network(trusted_proxies: &Vec<String>) -> (r: Option<Vec<FieldError>>)
    ensures
        match r {
            Some(v) => trusted_proxies@.len() > 64 && field_error_views(v@) == seq![
                fe("trusted_proxies"@, "must have at most 64 entries"@),
            ],
            None => trusted_proxies@.len() <= 64,
        },
{
    if trusted_proxies.len() > 64 {
        let mut v: Vec<FieldError> = Vec::new();
        push_fe(&mut v, "trusted_proxies", "must have at most 64 entries");
        proof {
            assert(field_error_views(v@) =~= seq![
                fe("trusted_proxies"@, "must have at most 64 entries"@),
            ]);
        }
        Some(v)
    } else {
        None
    }
}

/// The path validation rule: 1 to 4096 characters.
pub fn validate_path_input(path: &str) -> (r: Option<Vec<FieldError>>)
    ensures
        match r {
            Some(v) => (path@.len() == 0 || path@.len() > 4096) && field_error_views(v@) == seq![
                fe("path"@, "must be between 1 and 4096 characters"@),
            ],
            None => 1 <= path@.len() <= 4096,
        },
{
    let n = path.unicode_len();
    if n == 0 || n > 4096 {
        let mut v: Vec<FieldError> = Vec::new();
        push_fe(&mut v, "path", "must be between 1 and 4096 characters");
        proof {
            assert(field_error_views(v@) =~= seq![
                fe("path"@, "must be between 1 and 4096 characters"@),
            ]);
        }
        Some(v)
    } else {
        None
    }
}

// ─── rate limiting ───────────────────────────────────────────────────────

/// Timestamps still inside the window at `now`.
pub open spec fn in_window(window_secs: u64, now: u64) -> spec_fn(u64) -> bool {
    |t: u64| t <= now && now - t < window_secs
}

/// The first bucket of a key.
pub open spec fn find_bucket_from(
    buckets: Seq<(Seq<char>, Seq<u64>)>,
    i: int,
    key: Seq<char>,
) -> Option<int>
    decreases buckets.len() - i,
{
    if i < 0 || i >= buckets.len() {
        None
    } else if buckets[i].0 == key {
        Some(i)
    } else {
        find_bucket_from(buckets, i + 1, key)
    }
}

/// A sliding-window rate limiter over per-key hit timestamps.
pub struct RateLimiter {
    buckets: Vec<(String, Vec<u64>)>,
    max_requests: u64,
    window_secs: u64,
}

impl RateLimiter {
    pub closed spec fn spec_max(self) -> u64 {
        self.max_requests
    }

    pub closed spec fn spec_window(self) -> u64 {
        self.window_secs
    }

    pub closed spec fn spec_buckets(self) -> Seq<(Seq<char>, Seq<u64>)> {
        self.buckets@.map_values(|b: (String, Vec<u64>)| (b.0@, b.1@))
    }

    /// The live hits of one key at `now`: its recorded timestamps still
    /// inside the window.
    pub open spec fn live_hits(self, key: Seq<char>, now: u64) -> int {
        match find_bucket_from(self.spec_buckets(), 0, key) {
            Some(k) => self.spec_buckets()[k].1.filter(
                in_window(self.spec_window(), now),
            ).len() as int,
            None => 0,
        }
    }

    pub fn new(max_requests: u64, window_secs: u64) -> (r: Self)
        ensures
            r.spec_max() == max_requests,
            r.spec_window() == window_secs,
            r.spec_buckets().len() == 0,
    {
        RateLimiter { buckets: Vec::new(), max_requests, window_secs }
    }

    /// Admit or refuse a hit for `key` at `now`: refused with the window
    /// length exactly when the key already has `max_requests` live hits;
    /// admitted otherwise, answering how many more hits remain.
    pub fn check(&mut self, key: &str, now: u64) -> (r: Result<u64, u64>)
        ensures
            final(self).spec_max() == old(self).spec_max(),
            final(self).spec_window() == old(self).spec_window(),
            match r {
                Ok(remaining) => old(self).live_hits(key@, now) < old(self).spec_max() && remaining
                    == old(self).spec_max() - old(self).live_hits(key@, now) - 1 && (old(
                    self,
                ).spec_window() >= 1 ==> final(self).live_hits(key@, now) == old(self).live_hits(
                    key@,
                    now,
                ) + 1),
                Err(retry) => old(self).live_hits(key@, now) >= old(self).spec_max() && retry
                    == old(self).spec_window() && final(self).live_hits(key@, now) == old(
                    self,
                ).live_hits(key@, now),
            },
    {
        let ghost b0 = self.spec_buckets();
        let n: usize = self.buckets.len();
        let window = self.window_secs;
        let maxr = self.max_requests;
        let mut i: usize = 0;
        while i < n
            invariant
                0 <= i <= n,
                n == self.buckets@.len(),
                window == self.window_secs,
                maxr == self.max_requests,
                self.spec_buckets() == b0,
                b0 == old(self).spec_buckets(),
                *self == *old(self),
                find_bucket_from(b0, 0, key@) == find_bucket_from(b0, i as int, key@),
            decreases n - i,
        {
            proof {
                assert(b0[i as int] == (self.buckets@[i as int].0@, self.buckets@[i as int].1@));
            }
            if crate::strutil::str_eq(self.buckets[i].0.as_str(), key) {
                // found the bucket: retain the live entries, then decide
                let old_entries = &self.buckets[i].1;
                let ghost oe = old_entries@;
                let mut live: Vec<u64> = Vec::new();
                let en: usize = old_entries.len();
                let mut k: usize = 0;
                while k < en
                    invariant
                        0 <= k <= en,
                        en == oe.len(),
                        oe == old_entries@,
                        live@ == oe.take(k as int).filter(in_window(window, now)),
                        forall|j: int| 0 <= j < live@.len() ==> in_window(window, now)(
                            #[trigger] live@[j],
                        ),
                    decreases en - k,
                {
                    proof {
                        crate::strutil::lemma_filter_take_step(
                            oe,
                            k as int,
                            in_window(window, now),
                        );
                    }
                    let ghost oldlive = live@;
                    let t = old_entries[k];
                    if t <= now && now - t < window {
                        live.push(t);
                        proof {
                            assert forall|j: int|
                                0 <= j < live@.len() implies in_window(window, now)(
                                #[trigger] live@[j],
                            ) by {
                                if j < oldlive.len() {
                                    assert(live@[j] == oldlive[j]);
                                }
                            }
                        }
                    }
                    k += 1;
                }
                proof {
                    assert(oe.take(en as int) =~= oe);
                    crate::strutil::lemma_filter_all(live@, in_window(window, now));
                }
                if live.len() as u64 >= maxr {
                    // over the limit: the refresh drops stale entries only
                    let key_string = self.buckets[i].0.clone();
                    let ghost newlive = live@;
                    self.buckets.set(i, (key_string, live));
                    proof {
                        lemma_first_bucket_update(b0, i as int, key@, newlive);
                        assert(self.spec_buckets() =~= b0.update(i as int, (key@, newlive)));
                    }
                    return Err(window);
                } else {
                    let count = live.len();
                    live.push(now);
                    proof {
                        if window >= 1 {
                            assert(in_window(window, now)(now));
                            crate::strutil::lemma_filter_all(live@, in_window(window, now));
                        }
                    }
                    let key_string = self.buckets[i].0.clone();
                    let ghost newlive = live@;
                    self.buckets.set(i, (key_string, live));
                    proof {
                        lemma_first_bucket_update(b0, i as int, key@, newlive);
                        assert(self.spec_buckets() =~= b0.update(i as int, (key@, newlive)));
                    }
                    return Ok(maxr - count as u64 - 1);
                }
            }
            i += 1;
        }
        // no bucket yet: this key has no live hits
        if maxr == 0 {
            return Err(window);
        }
        let mut entries: Vec<u64> = Vec::new();
        entries.push(now);
        let ghost newlive = entries@;
        self.buckets.push((String::from_str(key), entries));
        proof {
            assert(self.spec_buckets() =~= b0.push((key@, newlive)));
            lemma_first_bucket_push(b0, key@, newlive);
            if window >= 1 {
                assert(in_window(window, now)(now));
                crate::strutil::lemma_filter_all(newlive, in_window(window, now));
                assert(newlive.filter(in_window(window, now)).len() == 1);
            }
        }
        Ok(maxr - 1)
    }
}

/// Updating the first bucket of a key keeps it the first bucket.
proof fn lemma_first_bucket_update(
    b0: Seq<(Seq<char>, Seq<u64>)>,
    i: int,
    key: Seq<char>,
    newlive: Seq<u64>,
)
    requires
        0 <= i < b0.len(),
        find_bucket_from(b0, 0, key) == Some(i),
    ensures
        find_bucket_from(b0.update(i, (key, newlive)), 0, key) == Some(i),
        b0.update(i, (key, newlive))[i].1 == newlive,
{
    lemma_first_bucket_update_from(b0, 0, i, key, newlive);
}

proof fn lemma_first_bucket_update_from(
    b0: Seq<(Seq<char>, Seq<u64>)>,
    j: int,
    i: int,
    key: Seq<char>,
    newlive: Seq<u64>,
)
    requires
        0 <= j <= i < b0.len(),
        find_bucket_from(b0, j, key) == Some(i),
    ensures
        find_bucket_from(b0.update(i, (key, newlive)), j, key) == Some(i),
    decreases i - j,
{
    let b1 = b0.update(i, (key, newlive));
    if j < i {
        assert(b0[j].0 != key);
        assert(b1[j] == b0[j]);
        lemma_first_bucket_update_from(b0, j + 1, i, key, newlive);
    } else {
        assert(b1[i].0 == key);
    }
}

/// A key without a bucket gains one at the end.
proof fn lemma_first_bucket_push(b0: Seq<(Seq<char>, Seq<u64>)>, key: Seq<char>, newlive: Seq<u64>)
    requires
        find_bucket_from(b0, 0, key) is None,
    ensures
        find_bucket_from(b0.push((key, newlive)), 0, key) == Some(b0.len() as int),
{
    lemma_first_bucket_push_from(b0, 0, key, newlive);
}

proof fn lemma_first_bucket_push_from(
    b0: Seq<(Seq<char>, Seq<u64>)>,
    j: int,
    key: Seq<char>,
    newlive: Seq<u64>,
)
    requires
        0 <= j <= b0.len(),
        find_bucket_from(b0, j, key) is None,
    ensures
        find_bucket_from(b0.push((key, newlive)), j, key) == Some(b0.len() as int),
    decreases b0.len() - j,
{
    let b1 = b0.push((key, newlive));
    if j < b0.len() {
        assert(b0[j].0 != key);
        assert(b1[j] == b0[j]);
        lemma_first_bucket_push_from(b0, j + 1, key, newlive);
    } else {
        assert(b1[j].0 == key);
    }
}

} // verus!

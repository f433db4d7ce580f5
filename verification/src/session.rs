//! The transcode session manager: bounded admission, pings, idle reaping,
//! and the encoder command line.
//!
//! The manager holds the session records; starting and killing the encoder
//! child and deleting output directories are I/O done by the caller around
//! these methods. `create_session` admits a session and hands back the exact
//! encoder arguments; `cleanup_idle` and `stop_session` hand back the
//! records whose directories are to be deleted. A caller that holds one lock
//! around each method call gets the original concurrency discipline: the
//! count never exceeds the configured limit, and a session just pinged
//! cannot be reaped before its idle timeout has passed.

use crate::strutil::{dec_str, digit_char, u64_to_dec_string};
use crate::transcode::{HwAccel, TranscodeError, TranscoderConfig};
use vstd::prelude::*;
use vstd::pervasive::VecAdditionalExecFns;
use vstd::string::StringExecFns;

verus! {

/// An active HLS transcode session record.
#[derive(Debug, Clone)]
pub struct TranscodeSession {
    pub id: String,
    pub input_path: String,
    pub output_dir: String,
    pub started_at: u64,
    pub last_ping: u64,
}

/// A session is idle when a full timeout has passed since its last ping.
pub open spec fn spec_idle(s: TranscodeSession, timeout_secs: u64, now: u64) -> bool {
    now >= s.last_ping + timeout_secs
}

impl TranscodeSession {
    /// A field-wise copy of the record.
    pub fn duplicate(&self) -> (r: Self)
        ensures
            r == *self,
    {
        TranscodeSession {
            id: self.id.clone(),
            input_path: self.input_path.clone(),
            output_dir: self.output_dir.clone(),
            started_at: self.started_at,
            last_ping: self.last_ping,
        }
    }

    /// Whether this session has been idle for `timeout_secs` at `now`.
    pub fn is_idle(&self, timeout_secs: u64, now: u64) -> (r: bool)
        ensures
            r == spec_idle(*self, timeout_secs, now),
    {
        now >= self.last_ping && now - self.last_ping >= timeout_secs
    }
}

/// A session just pinged outlives any reap before its timeout: the heart of
/// the liveness guarantee for playing clients.
pub proof fn lemma_fresh_ping_not_idle(s: TranscodeSession, timeout_secs: u64, now: u64)
    requires
        now < s.last_ping + timeout_secs,
    ensures
        !spec_idle(s, timeout_secs, now),
{
}

/// The liveness guarantee as one statement. After `ping(id)` at time `t`
/// the session's record has `last_ping == t` (the ensures of `ping`), and
/// a `cleanup_idle(now)` before `t + timeout` keeps exactly the sessions
/// this lemma names — so the pinged session is still held afterwards, and
/// its record is not among those handed out for teardown. Only
/// `stop_session` and `cleanup_idle` ever hand records to teardown.
pub proof fn lemma_pinged_session_survives(
    sessions: Seq<TranscodeSession>,
    i: int,
    timeout_secs: u64,
    now: u64,
)
    requires
        0 <= i < sessions.len(),
        now < sessions[i].last_ping + timeout_secs,
    ensures
        sessions.filter(keepp(timeout_secs, now)).contains(sessions[i]),
        !sessions.filter(reapp(timeout_secs, now)).contains(sessions[i]),
{
    lemma_fresh_ping_not_idle(sessions[i], timeout_secs, now);
    assert(keepp(timeout_secs, now)(sessions[i]));
    sessions.lemma_filter_contains(keepp(timeout_secs, now), i);
    if sessions.filter(reapp(timeout_secs, now)).contains(sessions[i]) {
        let w = choose|w: int|
            0 <= w < sessions.filter(reapp(timeout_secs, now)).len() && sessions.filter(
                reapp(timeout_secs, now),
            )[w] == sessions[i];
        sessions.lemma_filter_pred(reapp(timeout_secs, now), w);
    }
}

/// What the caller must do to realise a freshly admitted session: create
/// `output_dir`, then spawn the encoder with `args`, its stderr sent to
/// `log_path`.
#[derive(Debug, Clone)]
pub struct SessionPlan {
    pub session_id: String,
    pub output_dir: String,
    pub log_path: String,
    pub args: Vec<String>,
}

/// Manages all active transcode sessions.
pub struct SessionManager {
    config: TranscoderConfig,
    sessions: Vec<TranscodeSession>,
}

pub open spec fn contains_session(sessions: Seq<TranscodeSession>, id: Seq<char>) -> bool {
    exists|i: int| 0 <= i < sessions.len() && (#[trigger] sessions[i]).id@ == id
}

/// Some session record carries exactly these readings.
pub open spec fn session_matches(
    sessions: Seq<TranscodeSession>,
    id: Seq<char>,
    input: Seq<char>,
    outdir: Seq<char>,
    now: u64,
) -> bool {
    exists|i: int|
        0 <= i < sessions.len() && {
            let s = #[trigger] sessions[i];
            &&& s.id@ == id
            &&& s.input_path@ == input
            &&& s.output_dir@ == outdir
            &&& s.started_at == now
            &&& s.last_ping == now
        }
}

impl SessionManager {
    /// The bounded-concurrency invariant: never more sessions than the
    /// configured limit, and one record per session id.
    pub closed spec fn inv(self) -> bool {
        &&& self.sessions@.len() <= self.config.max_concurrent
        &&& forall|i: int, j: int|
            0 <= i < j < self.sessions@.len() ==> (#[trigger] self.sessions@[i]).id@ != (
            #[trigger] self.sessions@[j]).id@
    }

    pub closed spec fn spec_sessions(self) -> Seq<TranscodeSession> {
        self.sessions@
    }

    pub closed spec fn spec_config(self) -> TranscoderConfig {
        self.config
    }

    pub fn new(config: TranscoderConfig) -> (r: Self)
        ensures
            r.inv(),
            r.spec_sessions().len() == 0,
            r.spec_config() == config,
    {
        SessionManager { config, sessions: Vec::new() }
    }

    /// Get active session count; never above the limit.
    pub fn active_count(&self) -> (r: usize)
        requires
            self.inv(),
        ensures
            r == self.spec_sessions().len(),
            r <= self.spec_config().max_concurrent,
    {
        self.sessions.len()
    }

    /// List active session IDs.
    pub fn list_sessions(&self) -> (r: Vec<String>)
        ensures
            r@.len() == self.spec_sessions().len(),
            forall|i: int|
                0 <= i < r@.len() ==> (#[trigger] r@[i])@ == self.spec_sessions()[i].id@,
    {
        let mut out: Vec<String> = Vec::new();
        let n: usize = self.sessions.len();
        let mut i: usize = 0;
        while i < n
            invariant
                0 <= i <= n,
                n == self.sessions@.len(),
                out@.len() == i,
                forall|j: int| 0 <= j < i ==> (#[trigger] out@[j])@ == self.sessions@[j].id@,
            decreases n - i,
        {
            out.push(self.sessions[i].id.clone());
            i += 1;
        }
        out
    }

    /// Find a session's position by id.
    fn position_of(&self, session_id: &str) -> (r: Option<usize>)
        ensures
            match r {
                Some(i) => i < self.sessions@.len() && self.sessions@[i as int].id@ == session_id@
                    && contains_session(self.sessions@, session_id@),
                None => !contains_session(self.sessions@, session_id@),
            },
    {
        let n: usize = self.sessions.len();
        let mut i: usize = 0;
        while i < n
            invariant
                0 <= i <= n,
                n == self.sessions@.len(),
                forall|j: int| 0 <= j < i ==> (#[trigger] self.sessions@[j]).id@ != session_id@,
            decreases n - i,
        {
            if crate::strutil::str_eq(self.sessions[i].id.as_str(), session_id) {
                return Some(i);
            }
            i += 1;
        }
        None
    }

    /// Ping a session (update its last ping) and return whether it exists.
    pub fn ping(&mut self, session_id: &str, now: u64) -> (r: bool)
        requires
            old(self).inv(),
        ensures
            final(self).inv(),
            r == contains_session(old(self).spec_sessions(), session_id@),
            final(self).spec_config() == old(self).spec_config(),
            final(self).spec_sessions().len() == old(self).spec_sessions().len(),
            forall|i: int|
                0 <= i < old(self).spec_sessions().len() ==> {
                    let s0 = old(self).spec_sessions()[i];
                    let s1 = #[trigger] final(self).spec_sessions()[i];
                    if s0.id@ == session_id@ {
                        s1 == TranscodeSession { last_ping: now, ..s0 }
                    } else {
                        s1 == s0
                    }
                },
    {
        let pos = self.position_of(session_id);
        match pos {
            Some(i) => {
                let ghost olds = self.sessions@;
                let old_rec = self.sessions[i].duplicate();
                let updated = TranscodeSession {
                    id: old_rec.id,
                    input_path: old_rec.input_path,
                    output_dir: old_rec.output_dir,
                    started_at: old_rec.started_at,
                    last_ping: now,
                };
                self.sessions.set(i, updated);
                proof {
                    assert forall|k: int| 0 <= k < olds.len() implies {
                        let s0 = olds[k];
                        let s1 = #[trigger] self.sessions@[k];
                        if s0.id@ == session_id@ {
                            s1 == TranscodeSession { last_ping: now, ..s0 }
                        } else {
                            s1 == s0
                        }
                    } by {
                        if k != i {
                            assert(olds[k].id@ != session_id@);
                        }
                    }
                }
                true
            },
            None => false,
        }
    }

    /// The path of a file inside a session's output directory. The file
    /// name must already be checked against path traversal.
    pub fn get_file_path(&self, session_id: &str, filename: &str) -> (r: Result<
        String,
        TranscodeError,
    >)
        requires
            crate::hls::safe_segment_name(filename@),
        ensures
            match r {
                Ok(p) => contains_session(self.spec_sessions(), session_id@) && exists|i: int|
                    0 <= i < self.spec_sessions().len() && (#[trigger] self.spec_sessions()[i]).id@
                        == session_id@ && p@ == self.spec_sessions()[i].output_dir@ + "/"@
                        + filename@,
                Err(e) => !contains_session(self.spec_sessions(), session_id@) && (
                e matches TranscodeError::SessionNotFound(sid) && sid@ == session_id@),
            },
    {
        match self.position_of(session_id) {
            Some(i) => {
                let mut p = self.sessions[i].output_dir.clone();
                p.append("/");
                p.append(filename);
                proof {
                    assert((#[trigger] self.spec_sessions()[i as int]).id@ == session_id@ && p@
                        == self.spec_sessions()[i as int].output_dir@ + "/"@ + filename@);
                }
                Ok(p)
            },
            None => Err(TranscodeError::SessionNotFound(String::from_str(session_id))),
        }
    }

    /// Stop a session: remove its record and hand it back so the caller can
    /// kill the child and delete the directory.
    pub fn stop_session(&mut self, session_id: &str) -> (r: Result<
        TranscodeSession,
        TranscodeError,
    >)
        requires
            old(self).inv(),
        ensures
            final(self).inv(),
            final(self).spec_config() == old(self).spec_config(),
            match r {
                Ok(s) => {
                    &&& contains_session(old(self).spec_sessions(), session_id@)
                    &&& s.id@ == session_id@
                    &&& !contains_session(final(self).spec_sessions(), session_id@)
                    &&& final(self).spec_sessions().len() == old(self).spec_sessions().len() - 1
                    &&& forall|id2: Seq<char>|
                        id2 != session_id@ ==> (#[trigger] contains_session(
                            final(self).spec_sessions(),
                            id2,
                        ) == contains_session(old(self).spec_sessions(), id2))
                },
                Err(e) => {
                    &&& !contains_session(old(self).spec_sessions(), session_id@)
                    &&& *final(self) == *old(self)
                    &&& e matches TranscodeError::SessionNotFound(sid) && sid@ == session_id@
                },
            },
    {
        match self.position_of(session_id) {
            Some(i) => {
                let ghost olds = self.sessions@;
                let removed = self.sessions.remove(i);
                proof {
                    lemma_remove_contains(olds, i as int, session_id@);
                }
                Ok(removed)
            },
            None => Err(TranscodeError::SessionNotFound(String::from_str(session_id))),
        }
    }

    /// Remove every idle session and hand the removed records back for
    /// teardown. Exactly the sessions whose last ping is a full timeout old
    /// go; every other session stays untouched.
    pub fn cleanup_idle(&mut self, now: u64) -> (removed: Vec<TranscodeSession>)
        requires
            old(self).inv(),
        ensures
            final(self).inv(),
            final(self).spec_config() == old(self).spec_config(),
            final(self).spec_sessions() == old(self).spec_sessions().filter(
                keepp(old(self).spec_config().idle_timeout_secs, now),
            ),
            removed@ == old(self).spec_sessions().filter(
                reapp(old(self).spec_config().idle_timeout_secs, now),
            ),
    {
        let timeout = self.config.idle_timeout_secs;
        let n: usize = self.sessions.len();
        let mut keep: Vec<TranscodeSession> = Vec::new();
        let mut removed: Vec<TranscodeSession> = Vec::new();
        let ghost olds = self.sessions@;
        let mut i: usize = 0;
        while i < n
            invariant
                0 <= i <= n,
                n == olds.len(),
                self.sessions@ == olds,
                timeout == self.config.idle_timeout_secs,
                keep@ == olds.take(i as int).filter(keepp(timeout, now)),
                removed@ == olds.take(i as int).filter(reapp(timeout, now)),
            decreases n - i,
        {
            let s = self.sessions[i].duplicate();
            proof {
                assert(olds.take(i + 1 as int).drop_last() =~= olds.take(i as int));
                assert(olds.take(i + 1 as int).last() == olds[i as int]);
                reveal(Seq::filter);
            }
            if s.is_idle(timeout, now) {
                removed.push(s);
            } else {
                keep.push(s);
            }
            i += 1;
        }
        proof {
            assert(olds.take(n as int) =~= olds);
            lemma_filter_keeps_inv(olds, keepp(timeout, now), self.config.max_concurrent as int);
        }
        self.sessions = keep;
        removed
    }

    /// Admit and record a new session. Refused with `MaxTranscodesReached`
    /// exactly when the session count is already at the limit; otherwise the
    /// new record is admitted with a fresh id and the encoder plan is
    /// returned.
    pub fn create_session(
        &mut self,
        input_path: String,
        start_time_ms: Option<u64>,
        video_codec_override: Option<&str>,
        now: u64,
    ) -> (r: Result<SessionPlan, TranscodeError>)
        requires
            old(self).inv(),
        ensures
            final(self).inv(),
            final(self).spec_config() == old(self).spec_config(),
            match r {
                Ok(plan) => {
                    &&& old(self).spec_sessions().len() < old(self).spec_config().max_concurrent
                    &&& contains_session(final(self).spec_sessions(), plan.session_id@)
                    &&& final(self).spec_sessions().len() <= old(self).spec_sessions().len() + 1
                    // a fresh id adds a session; a colliding id replaces the
                    // stale record, as a map insert would
                    &&& (!contains_session(old(self).spec_sessions(), plan.session_id@)
                        ==> final(self).spec_sessions().len() == old(self).spec_sessions().len()
                        + 1)
                    &&& (contains_session(old(self).spec_sessions(), plan.session_id@)
                        ==> final(self).spec_sessions().len() == old(self).spec_sessions().len())
                    &&& plan.output_dir@ == old(self).spec_config().transcode_dir@ + "/"@
                        + plan.session_id@
                    &&& plan.log_path@ == plan.output_dir@ + "/ffmpeg.log"@
                    &&& plan.args.deep_view() == spec_ffmpeg_args(
                        input_path@,
                        plan.output_dir@,
                        old(self).spec_config().segment_secs,
                        start_time_ms,
                        match video_codec_override {
                            Some(c) => Some(c@),
                            None => None,
                        },
                        old(self).spec_config().hw_accel,
                    )
                    &&& session_matches(
                        final(self).spec_sessions(),
                        plan.session_id@,
                        input_path@,
                        plan.output_dir@,
                        now,
                    )
                    &&& forall|id2: Seq<char>|
                        contains_session(old(self).spec_sessions(), id2) && id2 != plan.session_id@
                            ==> #[trigger] contains_session(final(self).spec_sessions(), id2)
                },
                Err(e) => {
                    &&& old(self).spec_sessions().len() >= old(self).spec_config().max_concurrent
                    &&& *final(self) == *old(self)
                    &&& e matches TranscodeError::MaxTranscodesReached(m) && m == old(
                        self,
                    ).spec_config().max_concurrent
                },
            },
    {
        if self.sessions.len() >= self.config.max_concurrent {
            return Err(TranscodeError::MaxTranscodesReached(self.config.max_concurrent));
        }
        let session_id = mint_session_id();
        let mut output_dir = self.config.transcode_dir.clone();
        output_dir.append("/");
        output_dir.append(session_id.as_str());
        let mut log_path = output_dir.clone();
        log_path.append("/ffmpeg.log");
        let args = build_ffmpeg_args(
            input_path.as_str(),
            output_dir.as_str(),
            self.config.segment_secs,
            start_time_ms,
            video_codec_override,
            self.config.hw_accel,
        );
        let ghost gin = input_path@;
        let record = TranscodeSession {
            id: session_id.clone(),
            input_path,
            output_dir: output_dir.clone(),
            started_at: now,
            last_ping: now,
        };
        let ghost grec = record;
        // a repeated id replaces the stale record, as a map insert would
        let ghost olds = self.sessions@;
        match self.position_of(session_id.as_str()) {
            Some(i) => {
                self.sessions.set(i, record);
                proof {
                    assert(self.sessions@[i as int] == grec);
                    assert(self.sessions@[i as int].id@ == session_id@);
                    assert(contains_session(self.sessions@, session_id@));
                    assert(session_matches(self.sessions@, session_id@, gin, output_dir@, now));
                    assert forall|id2: Seq<char>|
                        contains_session(olds, id2) && id2 != session_id@ implies #[trigger]
                    contains_session(self.sessions@, id2) by {
                        let w = choose|k: int|
                            0 <= k < olds.len() && (#[trigger] olds[k]).id@ == id2;
                        assert(self.sessions@[w].id@ == id2);
                    }
                }
            },
            None => {
                self.sessions.push(record);
                proof {
                    assert(self.sessions@[olds.len() as int] == grec);
                    assert(self.sessions@[olds.len() as int].id@ == session_id@);
                    assert(contains_session(self.sessions@, session_id@));
                    assert(session_matches(self.sessions@, session_id@, gin, output_dir@, now));
                    assert forall|id2: Seq<char>|
                        contains_session(olds, id2) && id2 != session_id@ implies #[trigger]
                    contains_session(self.sessions@, id2) by {
                        let w = choose|k: int|
                            0 <= k < olds.len() && (#[trigger] olds[k]).id@ == id2;
                        assert(self.sessions@[w].id@ == id2);
                    }
                }
            },
        }
        Ok(SessionPlan { session_id, output_dir, log_path, args })
    }
}

/// Keep predicate for the idle sweep: sessions that stay.
pub open spec fn keepp(timeout_secs: u64, now: u64) -> spec_fn(TranscodeSession) -> bool {
    |s: TranscodeSession| !spec_idle(s, timeout_secs, now)
}

/// Reap predicate for the idle sweep: sessions that go.
pub open spec fn reapp(timeout_secs: u64, now: u64) -> spec_fn(TranscodeSession) -> bool {
    |s: TranscodeSession| spec_idle(s, timeout_secs, now)
}

proof fn lemma_filter_keeps_inv(
    s: Seq<TranscodeSession>,
    p: spec_fn(TranscodeSession) -> bool,
    max: int,
)
    requires
        s.len() <= max,
        forall|i: int, j: int|
            0 <= i < j < s.len() ==> (#[trigger] s[i]).id@ != (#[trigger] s[j]).id@,
    ensures
        s.filter(p).len() <= max,
        forall|i: int, j: int|
            0 <= i < j < s.filter(p).len() ==> (#[trigger] s.filter(p)[i]).id@ != (
            #[trigger] s.filter(p)[j]).id@,
{
    s.lemma_filter_len(p);
    lemma_filter_distinct(s, p);
}

/// Pairwise-distinct session ids survive filtering.
proof fn lemma_filter_distinct(s: Seq<TranscodeSession>, p: spec_fn(TranscodeSession) -> bool)
    requires
        forall|a: int, b: int|
            0 <= a < b < s.len() ==> (#[trigger] s[a]).id@ != (#[trigger] s[b]).id@,
    ensures
        forall|i: int, j: int|
            0 <= i < j < s.filter(p).len() ==> (#[trigger] s.filter(p)[i]).id@ != (
            #[trigger] s.filter(p)[j]).id@,
    decreases s.len(),
{
    reveal(Seq::filter);
    if s.len() > 0 {
        let d = s.drop_last();
        assert(forall|a: int, b: int|
            0 <= a < b < d.len() ==> (#[trigger] d[a]).id@ != (#[trigger] d[b]).id@);
        lemma_filter_distinct(d, p);
        let f = s.filter(p);
        let fd = d.filter(p);
        if p(s.last()) {
            assert(f == fd.push(s.last()));
            assert forall|i: int, j: int|
                0 <= i < j < f.len() implies (#[trigger] f[i]).id@ != (#[trigger] f[j]).id@ by {
                if j < f.len() - 1 {
                    assert(f[i] == fd[i] && f[j] == fd[j]);
                } else {
                    assert(f[j] == s.last());
                    assert(f[i] == fd[i]);
                    crate::strutil::lemma_filter_source(d, p, i);
                    let k = choose|k: int| 0 <= k < d.len() && #[trigger] d[k] == fd[i];
                    assert(s[k] == d[k]);
                    assert(s[k].id@ != s[s.len() - 1].id@);
                }
            }
        } else {
            assert(f == fd);
        }
    }
}

proof fn lemma_remove_contains(s: Seq<TranscodeSession>, i: int, id: Seq<char>)
    requires
        0 <= i < s.len(),
        s[i].id@ == id,
        forall|a: int, b: int|
            0 <= a < b < s.len() ==> (#[trigger] s[a]).id@ != (#[trigger] s[b]).id@,
    ensures
        !contains_session(s.remove(i), id),
        forall|id2: Seq<char>|
            id2 != id ==> #[trigger] contains_session(s.remove(i), id2) == contains_session(
                s,
                id2,
            ),
        forall|a: int, b: int|
            0 <= a < b < s.remove(i).len() ==> (#[trigger] s.remove(i)[a]).id@ != (#[trigger] s
                .remove(i)[b]).id@,
{
    let t = s.remove(i);
    assert forall|k: int| 0 <= k < t.len() implies (#[trigger] t[k]).id@ != id by {
        if k < i {
            assert(t[k] == s[k]);
        } else {
            assert(t[k] == s[k + 1]);
        }
    }
    assert forall|id2: Seq<char>|
        id2 != id implies #[trigger] contains_session(t, id2) == contains_session(s, id2) by {
        if contains_session(s, id2) {
            let w = choose|k: int| 0 <= k < s.len() && (#[trigger] s[k]).id@ == id2;
            if w < i {
                assert(t[w] == s[w]);
            } else {
                assert(w > i);
                assert(t[w - 1] == s[w]);
            }
        }
        if contains_session(t, id2) {
            let w = choose|k: int| 0 <= k < t.len() && (#[trigger] t[k]).id@ == id2;
            if w < i {
                assert(s[w] == t[w]);
            } else {
                assert(s[w + 1] == t[w]);
            }
        }
    }
    assert forall|a: int, b: int|
        0 <= a < b < t.len() implies (#[trigger] t[a]).id@ != (#[trigger] t[b]).id@ by {
        let sa = if a < i {
            a
        } else {
            a + 1
        };
        let sb = if b < i {
            b
        } else {
            b + 1
        };
        assert(t[a] == s[sa]);
        assert(t[b] == s[sb]);
    }
}

/// Relies on `uuid::Uuid::new_v4` and its hyphenated text form: a random
/// version-4 UUID rendered as 36 characters. Nothing further is promised
/// of a random value. The generator aborts the process if the operating
/// system's randomness source fails; no input avoids that environmental
/// case.
#[verifier::external_body]
fn mint_session_id() -> (r: String)
    ensures
        r@.len() == 36,
{
    uuid::Uuid::new_v4().to_string()
}

// ─── the encoder command line ────────────────────────────────────────────

/// Hardware-acceleration input flags.
pub open spec fn hw_flags_spec(hw: Option<HwAccel>) -> Seq<Seq<char>> {
    match hw {
        None => Seq::empty(),
        Some(HwAccel::Nvenc) => seq!["-hwaccel"@, "cuda"@],
        Some(HwAccel::Vaapi) => seq![
            "-hwaccel"@,
            "vaapi"@,
            "-hwaccel_output_format"@,
            "vaapi"@,
            "-vaapi_device"@,
            "/dev/dri/renderD128"@,
        ],
        Some(HwAccel::Qsv) => seq!["-hwaccel"@, "qsv"@],
        Some(HwAccel::VideoToolbox) => seq!["-hwaccel"@, "videotoolbox"@],
    }
}

/// The video encoder: an override wins, then the hardware encoder, then
/// software x264.
pub open spec fn vcodec_spec(vco: Option<Seq<char>>, hw: Option<HwAccel>) -> Seq<char> {
    match vco {
        Some(c) => c,
        None => match hw {
            Some(HwAccel::Nvenc) => "h264_nvenc"@,
            Some(HwAccel::Vaapi) => "h264_vaapi"@,
            Some(HwAccel::Qsv) => "h264_qsv"@,
            Some(HwAccel::VideoToolbox) => "h264_videotoolbox"@,
            None => "libx264"@,
        },
    }
}

/// A start time in milliseconds rendered as seconds with three decimals.
pub open spec fn fmt_secs_spec(ms: u64) -> Seq<char> {
    dec_str((ms / 1000) as nat) + seq!['.'] + seq![
        digit_char(((ms % 1000) / 100) as nat),
        digit_char((((ms % 1000) / 10) % 10) as nat),
        digit_char(((ms % 1000) % 10) as nat),
    ]
}

pub open spec fn seek_flags_spec(start_ms: Option<u64>) -> Seq<Seq<char>> {
    match start_ms {
        None => Seq::empty(),
        Some(ms) => seq!["-ss"@, fmt_secs_spec(ms)],
    }
}

/// Software-encode quality flags, present only without a hardware encoder
/// or codec override.
pub open spec fn sw_flags_spec(vco: Option<Seq<char>>, hw: Option<HwAccel>) -> Seq<Seq<char>> {
    if vco is None && hw is None {
        seq!["-preset"@, "veryfast"@, "-crf"@, "23"@]
    } else {
        Seq::empty()
    }
}

/// The full encoder command line for an HLS session.
pub open spec fn spec_ffmpeg_args(
    input: Seq<char>,
    output_dir: Seq<char>,
    segment_secs: u32,
    start_ms: Option<u64>,
    vco: Option<Seq<char>>,
    hw: Option<HwAccel>,
) -> Seq<Seq<char>> {
    seq!["-hide_banner"@, "-y"@] + hw_flags_spec(hw) + seek_flags_spec(start_ms) + seq![
        "-i"@,
        input,
    ] + seq!["-c:v"@, vcodec_spec(vco, hw)] + sw_flags_spec(vco, hw) + seq![
        "-c:a"@,
        "aac"@,
        "-b:a"@,
        "128k"@,
    ] + seq![
        "-f"@,
        "hls"@,
        "-hls_time"@,
        dec_str(segment_secs as nat),
        "-hls_playlist_type"@,
        "event"@,
        "-hls_segment_filename"@,
        output_dir + "/seg_%05d.ts"@,
        "-hls_flags"@,
        "independent_segments"@,
        output_dir + "/master.m3u8"@,
    ]
}

/// Build the encoder arguments for an HLS session.
#[verifier::rlimit(60)]
pub fn build_ffmpeg_args(
    input: &str,
    output_dir: &str,
    segment_secs: u32,
    start_ms: Option<u64>,
    video_codec_override: Option<&str>,
    hw_accel: Option<HwAccel>,
) -> (r: Vec<String>)
    ensures
        r.deep_view() == spec_ffmpeg_args(
            input@,
            output_dir@,
            segment_secs,
            start_ms,
            match video_codec_override {
                Some(c) => Some(c@),
                None => None,
            },
            hw_accel,
        ),
{
    let mut args: Vec<String> = Vec::new();
    args.push(String::from_str("-hide_banner"));
    args.push(String::from_str("-y"));
    match hw_accel {
        None => {},
        Some(HwAccel::Nvenc) => {
            args.push(String::from_str("-hwaccel"));
            args.push(String::from_str("cuda"));
        },
        Some(HwAccel::Vaapi) => {
            args.push(String::from_str("-hwaccel"));
            args.push(String::from_str("vaapi"));
            args.push(String::from_str("-hwaccel_output_format"));
            args.push(String::from_str("vaapi"));
            args.push(String::from_str("-vaapi_device"));
            args.push(String::from_str("/dev/dri/renderD128"));
        },
        Some(HwAccel::Qsv) => {
            args.push(String::from_str("-hwaccel"));
            args.push(String::from_str("qsv"));
        },
        Some(HwAccel::VideoToolbox) => {
            args.push(String::from_str("-hwaccel"));
            args.push(String::from_str("videotoolbox"));
        },
    }
    match start_ms {
        None => {},
        Some(ms) => {
            args.push(String::from_str("-ss"));
            args.push(fmt_secs(ms));
        },
    }
    args.push(String::from_str("-i"));
    args.push(String::from_str(input));
    args.push(String::from_str("-c:v"));
    match video_codec_override {
        Some(c) => args.push(String::from_str(c)),
        None => match hw_accel {
            Some(HwAccel::Nvenc) => args.push(String::from_str("h264_nvenc")),
            Some(HwAccel::Vaapi) => args.push(String::from_str("h264_vaapi")),
            Some(HwAccel::Qsv) => args.push(String::from_str("h264_qsv")),
            Some(HwAccel::VideoToolbox) => args.push(String::from_str("h264_videotoolbox")),
            None => args.push(String::from_str("libx264")),
        },
    }
    if video_codec_override.is_none() && hw_accel.is_none() {
        args.push(String::from_str("-preset"));
        args.push(String::from_str("veryfast"));
        args.push(String::from_str("-crf"));
        args.push(String::from_str("23"));
    }
    args.push(String::from_str("-c:a"));
    args.push(String::from_str("aac"));
    args.push(String::from_str("-b:a"));
    args.push(String::from_str("128k"));
    args.push(String::from_str("-f"));
    args.push(String::from_str("hls"));
    args.push(String::from_str("-hls_time"));
    args.push(u64_to_dec_string(segment_secs as u64));
    args.push(String::from_str("-hls_playlist_type"));
    args.push(String::from_str("event"));
    args.push(String::from_str("-hls_segment_filename"));
    let mut seg = String::from_str(output_dir);
    seg.append("/seg_%05d.ts");
    args.push(seg);
    args.push(String::from_str("-hls_flags"));
    args.push(String::from_str("independent_segments"));
    let mut master = String::from_str(output_dir);
    master.append("/master.m3u8");
    args.push(master);
    proof {
        assert(args.deep_view() =~= spec_ffmpeg_args(
            input@,
            output_dir@,
            segment_secs,
            start_ms,
            match video_codec_override {
                Some(c) => Some(c@),
                None => None,
            },
            hw_accel,
        ));
    }
    args
}

/// Render a millisecond count as `seconds.mmm`.
fn fmt_secs(ms: u64) -> (r: String)
    ensures
        r@ == fmt_secs_spec(ms),
{
    let mut s = u64_to_dec_string(ms / 1000);
    let frac = ms % 1000;
    let mut tail: Vec<char> = Vec::new();
    tail.push('.');
    tail.push(crate::strutil::exec_digit_char(frac / 100));
    tail.push(crate::strutil::exec_digit_char((frac / 10) % 10));
    tail.push(crate::strutil::exec_digit_char(frac % 10));
    let tail_str = crate::strutil::string_from_chars(&tail);
    s.append(tail_str.as_str());
    proof {
        assert(tail@ =~= seq!['.'] + seq![
            digit_char(((ms % 1000) / 100) as nat),
            digit_char((((ms % 1000) / 10) % 10) as nat),
            digit_char(((ms % 1000) % 10) as nat),
        ]);
    }
    s
}

} // verus!

//! Transcoder configuration and error types.

use crate::strutil::{dec_str, u64_to_dec_string};
use vstd::prelude::*;
use vstd::string::StringExecFns;

verus! {

/// Why a transcoder operation failed.
#[derive(Debug, Clone)]
pub enum TranscodeError {
    /// The encoder or probe binary was not found at the given path.
    BinaryNotFound(String),
    /// The probe ran but its output could not be used.
    ProbeFailed(String),
    /// The encoder could not be started or failed.
    FfmpegFailed(String),
    /// No session with the given id exists.
    SessionNotFound(String),
    /// The concurrent-session limit was already reached; carries the limit.
    MaxTranscodesReached(usize),
    /// An input/output error, as text.
    Io(String),
}

impl TranscodeError {
    /// A human-readable description of the error.
    pub fn message(&self) -> (r: String)
        ensures
            match self {
                TranscodeError::BinaryNotFound(p) => r@ == "binary not found at "@ + p@,
                TranscodeError::ProbeFailed(m) => r@ == "probe failed: "@ + m@,
                TranscodeError::FfmpegFailed(m) => r@ == "ffmpeg failed: "@ + m@,
                TranscodeError::SessionNotFound(id) => r@ == "session not found: "@ + id@,
                TranscodeError::MaxTranscodesReached(n) => r@ == "max transcodes reached ("@
                    + dec_str(*n as nat) + ")"@,
                TranscodeError::Io(m) => r@ == "io error: "@ + m@,
            },
    {
        match self {
            TranscodeError::BinaryNotFound(p) => concat_str("binary not found at ", p.as_str()),
            TranscodeError::ProbeFailed(m) => concat_str("probe failed: ", m.as_str()),
            TranscodeError::FfmpegFailed(m) => concat_str("ffmpeg failed: ", m.as_str()),
            TranscodeError::SessionNotFound(id) => concat_str("session not found: ", id.as_str()),
            TranscodeError::MaxTranscodesReached(n) => {
                let num = u64_to_dec_string(*n as u64);
                let mut s = concat_str("max transcodes reached (", num.as_str());
                s.append(")");
                s
            },
            TranscodeError::Io(m) => concat_str("io error: ", m.as_str()),
        }
    }
}

fn concat_str(a: &str, b: &str) -> (r: String)
    ensures
        r@ == a@ + b@,
{
    let mut s = String::from_str(a);
    s.append(b);
    s
}

/// Hardware acceleration back ends.
#[derive(Debug, Clone, Copy, PartialEq, Eq, Structural)]
pub enum HwAccel {
    Nvenc,
    Vaapi,
    Qsv,
    VideoToolbox,
}

/// Global transcoder configuration. Directories and binaries are carried as
/// path text.
#[derive(Debug, Clone)]
pub struct TranscoderConfig {
    pub ffmpeg_path: String,
    pub ffprobe_path: String,
    pub transcode_dir: String,
    pub max_concurrent: usize,
    pub segment_secs: u32,
    pub idle_timeout_secs: u64,
    pub hw_accel: Option<HwAccel>,
}

impl Default for TranscoderConfig {
    /// Software encoding, four concurrent sessions, four-second segments,
    /// one-minute idle timeout.
    fn default() -> (r: Self)
        ensures
            r.ffmpeg_path@ == "ffmpeg"@,
            r.ffprobe_path@ == "ffprobe"@,
            r.transcode_dir@ == "/tmp/rustfin_transcode"@,
            r.max_concurrent == 4,
            r.segment_secs == 4,
            r.idle_timeout_secs == 60,
            r.hw_accel is None,
    {
        TranscoderConfig {
            ffmpeg_path: String::from_str("ffmpeg"),
            ffprobe_path: String::from_str("ffprobe"),
            transcode_dir: String::from_str("/tmp/rustfin_transcode"),
            max_concurrent: 4,
            segment_secs: 4,
            idle_timeout_secs: 60,
            hw_accel: None,
        }
    }
}

} // verus!

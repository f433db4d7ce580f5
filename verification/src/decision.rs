//! The play-decision engine: direct play, remux, or transcode.
//!
//! Rules, applied in order with every triggered reason recorded: an
//! unsupported container, then (when a video stream exists) an unsupported
//! video codec, a video bitrate above the client's limit, and a width or
//! height above the client's limits (one resolution reason at most), then an
//! unsupported codec on the first audio track. No reasons means direct play;
//! reasons without a video or audio re-encode mean a remux; anything else is
//! a transcode.

use crate::probe::MediaInfo;
use crate::strutil::{chars_of, chars_eq, contains_sub, exec_lower, is_substr, lower_seq};
use vstd::prelude::*;
use vstd::string::StringExecFns;

verus! {

/// What a client can handle.
#[derive(Debug, Clone)]
pub struct ClientCaps {
    pub containers: Vec<String>,
    pub video_codecs: Vec<String>,
    pub audio_codecs: Vec<String>,
    pub max_bitrate_kbps: Option<u32>,
    pub max_width: Option<u32>,
    pub max_height: Option<u32>,
}

#[derive(Debug, Clone, Copy, PartialEq, Eq, Structural)]
pub enum PlayMethod {
    DirectPlay,
    Remux,
    Transcode,
}

#[derive(Debug, Clone, Copy, PartialEq, Eq, Structural)]
pub enum TranscodeReason {
    ContainerNotSupported,
    VideoCodecNotSupported,
    AudioCodecNotSupported,
    VideoBitrateTooHigh,
    VideoResolutionTooHigh,
}

#[derive(Debug, Clone)]
pub struct PlayDecision {
    pub method: PlayMethod,
    pub reasons: Vec<TranscodeReason>,
    pub transcode_video: bool,
    pub transcode_audio: bool,
}

// ─── the decision, mathematically ────────────────────────────────────────

/// Some declared container name occurs inside the media's container string.
pub open spec fn container_ok(m: MediaInfo, c: ClientCaps) -> bool {
    exists|i: int|
        0 <= i < c.containers@.len() && is_substr(m.container@, (#[trigger] c.containers@[i])@)
}

/// The codec appears in the list, ignoring ASCII case.
pub open spec fn codec_listed(codecs: Seq<String>, codec: Seq<char>) -> bool {
    exists|i: int| 0 <= i < codecs.len() && lower_seq((#[trigger] codecs[i])@) == lower_seq(codec)
}

pub open spec fn video_codec_ok(m: MediaInfo, c: ClientCaps) -> bool {
    match m.video {
        Some(v) => codec_listed(c.video_codecs@, v.codec@),
        None => true,
    }
}

pub open spec fn bitrate_high(m: MediaInfo, c: ClientCaps) -> bool {
    match m.video {
        Some(v) => match (c.max_bitrate_kbps, v.bitrate_kbps) {
            (Some(mx), Some(b)) => b > mx,
            _ => false,
        },
        None => false,
    }
}

pub open spec fn width_high(m: MediaInfo, c: ClientCaps) -> bool {
    match m.video {
        Some(v) => match c.max_width {
            Some(mx) => v.width > mx,
            None => false,
        },
        None => false,
    }
}

pub open spec fn height_high(m: MediaInfo, c: ClientCaps) -> bool {
    match m.video {
        Some(v) => match c.max_height {
            Some(mx) => v.height > mx,
            None => false,
        },
        None => false,
    }
}

pub open spec fn audio_codec_ok(m: MediaInfo, c: ClientCaps) -> bool {
    if m.audio@.len() > 0 {
        codec_listed(c.audio_codecs@, m.audio@[0].codec@)
    } else {
        true
    }
}

/// The reasons, in the order the rules run; at most one resolution reason.
pub open spec fn spec_reasons(m: MediaInfo, c: ClientCaps) -> Seq<TranscodeReason> {
    let r0 = if !container_ok(m, c) {
        seq![TranscodeReason::ContainerNotSupported]
    } else {
        Seq::empty()
    };
    let r1 = if m.video is Some && !video_codec_ok(m, c) {
        r0.push(TranscodeReason::VideoCodecNotSupported)
    } else {
        r0
    };
    let r2 = if bitrate_high(m, c) {
        r1.push(TranscodeReason::VideoBitrateTooHigh)
    } else {
        r1
    };
    let r3 = if width_high(m, c) {
        r2.push(TranscodeReason::VideoResolutionTooHigh)
    } else {
        r2
    };
    let r4 = if height_high(m, c) && !width_high(m, c) {
        r3.push(TranscodeReason::VideoResolutionTooHigh)
    } else {
        r3
    };
    if m.audio@.len() > 0 && !audio_codec_ok(m, c) {
        r4.push(TranscodeReason::AudioCodecNotSupported)
    } else {
        r4
    }
}

pub open spec fn spec_transcode_video(m: MediaInfo, c: ClientCaps) -> bool {
    m.video is Some && (!video_codec_ok(m, c) || bitrate_high(m, c) || width_high(m, c)
        || height_high(m, c))
}

pub open spec fn spec_transcode_audio(m: MediaInfo, c: ClientCaps) -> bool {
    m.audio@.len() > 0 && !audio_codec_ok(m, c)
}

pub open spec fn spec_method(m: MediaInfo, c: ClientCaps) -> PlayMethod {
    if spec_reasons(m, c).len() == 0 {
        PlayMethod::DirectPlay
    } else if !spec_transcode_video(m, c) && !spec_transcode_audio(m, c) {
        PlayMethod::Remux
    } else {
        PlayMethod::Transcode
    }
}

/// Direct play is chosen exactly when no reason stands against it.
pub proof fn lemma_direct_play_iff_no_reasons(m: MediaInfo, c: ClientCaps)
    ensures
        spec_method(m, c) is DirectPlay <==> spec_reasons(m, c).len() == 0,
{
}

// ─── the decision, executable ────────────────────────────────────────────

/// Whether any name in `list` occurs inside `hay`.
fn any_substring(hay: &String, list: &Vec<String>) -> (r: bool)
    ensures
        r == exists|i: int|
            0 <= i < list@.len() && is_substr(hay@, (#[trigger] list@[i])@),
{
    let hv = chars_of(hay.as_str());
    let n: usize = list.len();
    let mut i: usize = 0;
    while i < n
        invariant
            0 <= i <= n,
            n == list@.len(),
            hv@ == hay@,
            forall|j: int| 0 <= j < i ==> !is_substr(hay@, (#[trigger] list@[j])@),
        decreases n - i,
    {
        let item = chars_of(list[i].as_str());
        if contains_sub(&hv, &item) {
            return true;
        }
        i += 1;
    }
    false
}

/// Whether `codec` appears in `list`, ignoring ASCII case.
fn codec_in_list(list: &Vec<String>, codec: &String) -> (r: bool)
    ensures
        r == codec_listed(list@, codec@),
{
    let cv = chars_of(codec.as_str());
    let cl = exec_lower(&cv);
    let n: usize = list.len();
    let mut i: usize = 0;
    while i < n
        invariant
            0 <= i <= n,
            n == list@.len(),
            cl@ == lower_seq(codec@),
            forall|j: int| 0 <= j < i ==> lower_seq((#[trigger] list@[j])@) != lower_seq(codec@),
        decreases n - i,
    {
        let item = chars_of(list[i].as_str());
        let il = exec_lower(&item);
        if chars_eq(&il, &cl) {
            return true;
        }
        i += 1;
    }
    false
}

/// Decide how to play a media file given client capabilities.
pub fn decide(media: &MediaInfo, caps: &ClientCaps) -> (r: PlayDecision)
    ensures
        r.reasons@ == spec_reasons(*media, *caps),
        r.transcode_video == spec_transcode_video(*media, *caps),
        r.transcode_audio == spec_transcode_audio(*media, *caps),
        r.method == spec_method(*media, *caps),
{
    let mut reasons: Vec<TranscodeReason> = Vec::new();
    let mut transcode_video: bool = false;
    let mut transcode_audio: bool = false;

    let c_ok = any_substring(&media.container, &caps.containers);
    if !c_ok {
        reasons.push(TranscodeReason::ContainerNotSupported);
    }

    if let Some(v) = &media.video {
        let codec_ok = codec_in_list(&caps.video_codecs, &v.codec);
        if !codec_ok {
            reasons.push(TranscodeReason::VideoCodecNotSupported);
            transcode_video = true;
        }
        let br_high: bool = match (caps.max_bitrate_kbps, v.bitrate_kbps) {
            (Some(mx), Some(b)) => b > mx,
            _ => false,
        };
        if br_high {
            reasons.push(TranscodeReason::VideoBitrateTooHigh);
            transcode_video = true;
        }
        let w_high: bool = match caps.max_width {
            Some(mx) => v.width > mx,
            None => false,
        };
        if w_high {
            reasons.push(TranscodeReason::VideoResolutionTooHigh);
            transcode_video = true;
        }
        let h_high: bool = match caps.max_height {
            Some(mx) => v.height > mx,
            None => false,
        };
        if h_high {
            if !w_high {
                reasons.push(TranscodeReason::VideoResolutionTooHigh);
            }
            transcode_video = true;
        }
    }

    if media.audio.len() > 0 {
        let a = &media.audio[0];
        let a_ok = codec_in_list(&caps.audio_codecs, &a.codec);
        if !a_ok {
            reasons.push(TranscodeReason::AudioCodecNotSupported);
            transcode_audio = true;
        }
    }

    proof {
        assert(reasons@ =~= spec_reasons(*media, *caps));
    }

    let method = if reasons.len() == 0 {
        PlayMethod::DirectPlay
    } else if !transcode_video && !transcode_audio {
        PlayMethod::Remux
    } else {
        PlayMethod::Transcode
    };

    PlayDecision { method, reasons, transcode_video, transcode_audio }
}

impl Default for ClientCaps {
    /// Broadly compatible defaults: common containers, the four mainstream
    /// video codecs, six common audio codecs, and no bitrate or resolution
    /// limits.
    fn default() -> (r: Self)
        ensures
            r.containers@.len() == 4,
            r.containers@[0]@ == "mp4"@,
            r.containers@[1]@ == "matroska"@,
            r.containers@[2]@ == "webm"@,
            r.containers@[3]@ == "mov"@,
            r.video_codecs@.len() == 4,
            r.video_codecs@[0]@ == "h264"@,
            r.video_codecs@[1]@ == "hevc"@,
            r.video_codecs@[2]@ == "vp9"@,
            r.video_codecs@[3]@ == "av1"@,
            r.audio_codecs@.len() == 6,
            r.audio_codecs@[0]@ == "aac"@,
            r.audio_codecs@[1]@ == "mp3"@,
            r.audio_codecs@[2]@ == "opus"@,
            r.audio_codecs@[3]@ == "ac3"@,
            r.audio_codecs@[4]@ == "eac3"@,
            r.audio_codecs@[5]@ == "flac"@,
            r.max_bitrate_kbps is None,
            r.max_width is None,
            r.max_height is None,
    {
        let mut containers: Vec<String> = Vec::new();
        containers.push(String::from_str("mp4"));
        containers.push(String::from_str("matroska"));
        containers.push(String::from_str("webm"));
        containers.push(String::from_str("mov"));
        let mut video_codecs: Vec<String> = Vec::new();
        video_codecs.push(String::from_str("h264"));
        video_codecs.push(String::from_str("hevc"));
        video_codecs.push(String::from_str("vp9"));
        video_codecs.push(String::from_str("av1"));
        let mut audio_codecs: Vec<String> = Vec::new();
        audio_codecs.push(String::from_str("aac"));
        audio_codecs.push(String::from_str("mp3"));
        audio_codecs.push(String::from_str("opus"));
        audio_codecs.push(String::from_str("ac3"));
        audio_codecs.push(String::from_str("eac3"));
        audio_codecs.push(String::from_str("flac"));
        ClientCaps {
            containers,
            video_codecs,
            audio_codecs,
            max_bitrate_kbps: None,
            max_width: None,
            max_height: None,
        }
    }
}

} // verus!

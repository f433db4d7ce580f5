//! Media information extracted from a probe of a media file.
//!
//! The probe binary itself runs outside the library; its JSON output is
//! handed in as plain `RawFormat`/`RawStream` records, and this module does
//! the verified interpretation: picking the first video stream, collecting
//! audio and subtitle streams, and reading durations, bitrates and frame
//! rates as integers (milliseconds, kbit/s, and thousandths of a frame per
//! second). Decimal fields follow the grammar `digits[.digits]`, with values
//! above `u64::MAX` rejected.

use crate::strutil::{
    all_digits, dec_val, exec_first_index_of, first_index_from, chars_of, parse_u64_range,
};
use vstd::prelude::*;
use vstd::string::StringExecFns;

verus! {

/// The `format` object of a probe report, as plain values.
pub struct RawFormat {
    pub format_name: Option<String>,
    pub duration: Option<String>,
    pub bit_rate: Option<String>,
}

/// One entry of the `streams` array of a probe report, as plain values.
pub struct RawStream {
    pub index: u64,
    pub codec_type: String,
    pub codec_name: Option<String>,
    pub width: Option<u64>,
    pub height: Option<u64>,
    pub bit_rate: Option<String>,
    pub r_frame_rate: Option<String>,
    pub channels: Option<u64>,
    pub language: Option<String>,
    pub title: Option<String>,
    pub is_default: bool,
    pub is_forced: bool,
}

/// Media information extracted from a probe.
#[derive(Debug, Clone)]
pub struct MediaInfo {
    pub container: String,
    pub duration_ms: u64,
    pub bitrate_kbps: Option<u32>,
    pub video: Option<VideoStream>,
    pub audio: Vec<AudioStream>,
    pub subtitles: Vec<SubtitleStream>,
}

#[derive(Debug, Clone)]
pub struct VideoStream {
    pub index: u32,
    pub codec: String,
    pub width: u32,
    pub height: u32,
    pub bitrate_kbps: Option<u32>,
    /// Frames per second, in thousandths.
    pub framerate_milli: Option<u64>,
}

#[derive(Debug, Clone)]
pub struct AudioStream {
    pub index: u32,
    pub codec: String,
    pub channels: u32,
    pub language: Option<String>,
    pub title: Option<String>,
    pub is_default: bool,
}

#[derive(Debug, Clone)]
pub struct SubtitleStream {
    pub index: u32,
    pub codec: String,
    pub language: Option<String>,
    pub title: Option<String>,
    pub is_forced: bool,
    pub is_default: bool,
}

// ─── mathematical views ──────────────────────────────────────────────────

pub struct VideoView {
    pub index: int,
    pub codec: Seq<char>,
    pub width: int,
    pub height: int,
    pub bitrate_kbps: Option<int>,
    pub framerate_milli: Option<int>,
}

pub struct AudioView {
    pub index: int,
    pub codec: Seq<char>,
    pub channels: int,
    pub language: Option<Seq<char>>,
    pub title: Option<Seq<char>>,
    pub is_default: bool,
}

pub struct SubView {
    pub index: int,
    pub codec: Seq<char>,
    pub language: Option<Seq<char>>,
    pub title: Option<Seq<char>>,
    pub is_forced: bool,
    pub is_default: bool,
}

pub open spec fn view_of_opt_string(o: Option<String>) -> Option<Seq<char>> {
    match o {
        Some(s) => Some(s@),
        None => None,
    }
}

impl View for VideoStream {
    type V = VideoView;

    open spec fn view(&self) -> VideoView {
        VideoView {
            index: self.index as int,
            codec: self.codec@,
            width: self.width as int,
            height: self.height as int,
            bitrate_kbps: match self.bitrate_kbps {
                Some(b) => Some(b as int),
                None => None,
            },
            framerate_milli: match self.framerate_milli {
                Some(f) => Some(f as int),
                None => None,
            },
        }
    }
}

impl View for AudioStream {
    type V = AudioView;

    open spec fn view(&self) -> AudioView {
        AudioView {
            index: self.index as int,
            codec: self.codec@,
            channels: self.channels as int,
            language: view_of_opt_string(self.language),
            title: view_of_opt_string(self.title),
            is_default: self.is_default,
        }
    }
}

impl View for SubtitleStream {
    type V = SubView;

    open spec fn view(&self) -> SubView {
        SubView {
            index: self.index as int,
            codec: self.codec@,
            language: view_of_opt_string(self.language),
            title: view_of_opt_string(self.title),
            is_forced: self.is_forced,
            is_default: self.is_default,
        }
    }
}

// ─── decimal readings ────────────────────────────────────────────────────

/// The value, in thousandths, of a decimal numeral `digits[.digits]`.
/// `None` when the text does not fit that grammar or exceeds `u64::MAX`.
pub open spec fn decimal_milli_spec(s: Seq<char>) -> Option<int> {
    match first_index_from(s, 0, '.') {
        None => if s.len() >= 1 && all_digits(s) && dec_val(s) * 1000 <= u64::MAX {
            Some((dec_val(s) * 1000) as int)
        } else {
            None
        },
        Some(k) => {
            let ip = s.subrange(0, k);
            let fp = s.subrange(k + 1, s.len() as int);
            if ip.len() >= 1 && all_digits(ip) && all_digits(fp) && dec_val(ip) * 1000 + frac3(fp)
                <= u64::MAX {
                Some(dec_val(ip) * 1000 + frac3(fp))
            } else {
                None
            }
        },
    }
}

/// The first three fractional digits, scaled to thousandths.
pub open spec fn frac3(fp: Seq<char>) -> int {
    if fp.len() >= 3 {
        dec_val(fp.subrange(0, 3)) as int
    } else if fp.len() == 2 {
        (dec_val(fp) * 10) as int
    } else if fp.len() == 1 {
        (dec_val(fp) * 100) as int
    } else {
        0
    }
}

/// Read a decimal numeral as a count of thousandths.
pub fn parse_decimal_milli(s: &str) -> (r: Option<u64>)
    ensures
        match r {
            Some(v) => decimal_milli_spec(s@) == Some(v as int),
            None => decimal_milli_spec(s@) is None,
        },
{
    let v = chars_of(s);
    let n: usize = v.len();
    match exec_first_index_of(&v, '.') {
        None => {
            proof {
                assert(v@.subrange(0, n as int) =~= v@);
            }
            match parse_u64_range(&v, 0, n) {
                Some(ip) => {
                    if ip <= u64::MAX / 1000 {
                        Some(ip * 1000)
                    } else {
                        None
                    }
                },
                None => None,
            }
        },
        Some(k) => {
            let ghost fp = v@.subrange(k + 1, n as int);
            let ip = match parse_u64_range(&v, 0, k) {
                Some(x) => x,
                None => {
                    return None;
                },
            };
            if !parse_tail_digits(&v, k + 1) {
                return None;
            }
            proof {
                lemma_all_digits_window(v@, k + 1, n as int);
            }
            let fplen: usize = n - (k + 1);
            let fval: u64 = if fplen >= 3 {
                match parse_u64_range(&v, k + 1, k + 4) {
                    Some(x) => {
                        proof {
                            assert(fp.subrange(0, 3) =~= v@.subrange(k + 1 as int, k + 4 as int));
                        }
                        x
                    },
                    None => {
                        proof {
                            let w = v@.subrange(k + 1 as int, k + 4 as int);
                            crate::strutil::lemma_dec_val_bound(w);
                            assert(crate::strutil::pow10(0) == 1);
                            assert(crate::strutil::pow10(1) == 10);
                            assert(crate::strutil::pow10(2) == 100);
                            assert(crate::strutil::pow10(3) == 1000);
                            assert(false);
                        }
                        0
                    },
                }
            } else if fplen > 0 {
                match parse_u64_range(&v, k + 1, n) {
                    Some(x) => {
                        proof {
                            crate::strutil::lemma_dec_val_bound(fp);
                            assert(crate::strutil::pow10(0) == 1);
                            assert(crate::strutil::pow10(1) == 10);
                            assert(crate::strutil::pow10(2) == 100);
                        }
                        if fplen == 2 {
                            x * 10
                        } else {
                            x * 100
                        }
                    },
                    None => {
                        proof {
                            crate::strutil::lemma_dec_val_bound(fp);
                            assert(crate::strutil::pow10(0) == 1);
                            assert(crate::strutil::pow10(1) == 10);
                            assert(crate::strutil::pow10(2) == 100);
                            assert(false);
                        }
                        0
                    },
                }
            } else {
                0
            };
            proof {
                assert(fval == frac3(fp));
                assert(fval <= 999) by {
                    if fp.len() >= 3 {
                        crate::strutil::lemma_dec_val_bound(fp.subrange(0, 3));
                        assert(crate::strutil::pow10(0) == 1);
                        assert(crate::strutil::pow10(1) == 10);
                        assert(crate::strutil::pow10(2) == 100);
                        assert(crate::strutil::pow10(3) == 1000);
                    } else if fp.len() >= 1 {
                        crate::strutil::lemma_dec_val_bound(fp);
                        assert(crate::strutil::pow10(0) == 1);
                        assert(crate::strutil::pow10(1) == 10);
                        assert(crate::strutil::pow10(2) == 100);
                    }
                }
            }
            if ip <= (u64::MAX - fval) / 1000 {
                proof {
                    assert(ip * 1000 + fval <= u64::MAX) by (nonlinear_arith)
                        requires
                            ip <= (u64::MAX - fval) / 1000,
                            fval <= 999,
                    ;
                }
                Some(ip * 1000 + fval)
            } else {
                proof {
                    assert(ip * 1000 + fval > u64::MAX) by (nonlinear_arith)
                        requires
                            ip > (u64::MAX - fval) / 1000,
                            fval <= 999,
                    ;
                }
                None
            }
        },
    }
}

/// Whether every character from `from` on is a digit.
fn parse_tail_digits(v: &Vec<char>, from: usize) -> (r: bool)
    requires
        from <= v@.len(),
    ensures
        r == all_digits(v@.subrange(from as int, v@.len() as int)),
{
    let n: usize = v.len();
    let mut i: usize = from;
    while i < n
        invariant
            from <= i <= n,
            n == v@.len(),
            forall|j: int| from <= j < i ==> crate::strutil::is_digit_char(#[trigger] v@[j]),
        decreases n - i,
    {
        if !crate::strutil::exec_is_digit(v[i]) {
            proof {
                assert(v@.subrange(from as int, n as int)[i - from] == v@[i as int]);
            }
            return false;
        }
        i += 1;
    }
    proof {
        assert forall|j: int|
            0 <= j < v@.subrange(from as int, n as int).len() implies crate::strutil::is_digit_char(
            #[trigger] v@.subrange(from as int, n as int)[j],
        ) by {
            assert(v@.subrange(from as int, n as int)[j] == v@[from + j]);
        }
    }
    true
}

/// Digits of a full subrange restrict to any window of it.
proof fn lemma_all_digits_window(s: Seq<char>, a: int, b: int)
    requires
        0 <= a <= b <= s.len(),
        all_digits(s.subrange(a, b)),
    ensures
        forall|x: int, y: int|
            a <= x <= y <= b ==> all_digits(#[trigger] s.subrange(x, y)),
        forall|j: int| a <= j < b ==> crate::strutil::is_digit_char(#[trigger] s[j]),
{
    assert forall|j: int| a <= j < b implies crate::strutil::is_digit_char(#[trigger] s[j]) by {
        assert(s.subrange(a, b)[j - a] == s[j]);
    }
    assert forall|x: int, y: int|
        a <= x <= y <= b implies all_digits(#[trigger] s.subrange(x, y)) by {
        assert forall|j: int|
            0 <= j < s.subrange(x, y).len() implies crate::strutil::is_digit_char(
            #[trigger] s.subrange(x, y)[j],
        ) by {
            assert(s.subrange(x, y)[j] == s[x + j]);
        }
    }
}

// ─── frame rates ─────────────────────────────────────────────────────────

/// The value, in thousandths, of a frame-rate text: either `N/D` with
/// decimal integers and `D > 0`, or a plain decimal numeral. `None` when the
/// text does not fit that grammar, when `D = 0`, or when the value exceeds
/// `u64::MAX` thousandths.
pub open spec fn fraction_milli_spec(s: Seq<char>) -> Option<int> {
    match first_index_from(s, 0, '/') {
        Some(k) => {
            let num = s.subrange(0, k);
            let den = s.subrange(k + 1, s.len() as int);
            if num.len() >= 1 && all_digits(num) && den.len() >= 1 && all_digits(den) && dec_val(
                den,
            ) > 0 && dec_val(den) <= u64::MAX && dec_val(num) * 1000 <= u64::MAX {
                Some(((dec_val(num) * 1000) / dec_val(den)) as int)
            } else {
                None
            }
        },
        None => decimal_milli_spec(s),
    }
}

/// Read a frame-rate text as thousandths of a frame per second.
pub fn parse_fraction(s: &str) -> (r: Option<u64>)
    ensures
        match r {
            Some(v) => fraction_milli_spec(s@) == Some(v as int),
            None => fraction_milli_spec(s@) is None,
        },
{
    let v = chars_of(s);
    let n: usize = v.len();
    match exec_first_index_of(&v, '/') {
        Some(k) => {
            let num = match parse_u64_range(&v, 0, k) {
                Some(x) => x,
                None => {
                    proof {
                        lemma_mul_1000_monotone(v@.subrange(0, k as int));
                    }
                    return None;
                },
            };
            let den = match parse_u64_range(&v, k + 1, n) {
                Some(x) => x,
                None => {
                    return None;
                },
            };
            if den == 0 {
                return None;
            }
            if num > u64::MAX / 1000 {
                proof {
                    assert(num * 1000 > u64::MAX) by (nonlinear_arith)
                        requires
                            num > u64::MAX / 1000,
                    ;
                }
                return None;
            }
            proof {
                assert(num * 1000 <= u64::MAX) by (nonlinear_arith)
                    requires
                        num <= u64::MAX / 1000,
                ;
                assert((num as int * 1000) / (den as int) <= u64::MAX) by (nonlinear_arith)
                    requires
                        num as int * 1000 <= u64::MAX,
                        den >= 1,
                ;
            }
            Some((num * 1000) / den)
        },
        None => parse_decimal_milli(s),
    }
}

/// A numerator too large for `u64` makes the fraction too large as well.
proof fn lemma_mul_1000_monotone(s: Seq<char>)
    ensures
        dec_val(s) > u64::MAX ==> dec_val(s) * 1000 > u64::MAX,
{
    if dec_val(s) > u64::MAX {
        assert(dec_val(s) * 1000 >= dec_val(s)) by (nonlinear_arith);
    }
}

// ─── assembling MediaInfo ────────────────────────────────────────────────

pub open spec fn is_video_raw(r: RawStream) -> bool {
    r.codec_type@ == "video"@
}

pub open spec fn is_audio_raw(r: RawStream) -> bool {
    r.codec_type@ == "audio"@
}

pub open spec fn is_sub_raw(r: RawStream) -> bool {
    r.codec_type@ == "subtitle"@
}

/// The index of the first video stream at or after `i`.
pub open spec fn first_video_from(streams: Seq<RawStream>, i: int) -> Option<int>
    decreases streams.len() - i,
{
    if i < 0 || i >= streams.len() {
        None
    } else if is_video_raw(streams[i]) {
        Some(i)
    } else {
        first_video_from(streams, i + 1)
    }
}

/// A stream's codec name, defaulted.
pub open spec fn codec_of(r: RawStream) -> Seq<char> {
    match r.codec_name {
        Some(c) => c@,
        None => "unknown"@,
    }
}

/// A `bit_rate` text as kbit/s, truncated to 32 bits as stream readings
/// are carried.
pub open spec fn kbps_of(b: Option<String>) -> Option<int> {
    match b {
        Some(s) => if s@.len() >= 1 && all_digits(s@) && dec_val(s@) <= u64::MAX {
            Some(((dec_val(s@) / 1000) % 0x1_0000_0000) as int)
        } else {
            None
        },
        None => None,
    }
}

pub open spec fn trunc32(x: int) -> int {
    x % 0x1_0000_0000
}

pub open spec fn video_view_raw(r: RawStream) -> VideoView {
    VideoView {
        index: trunc32(r.index as int),
        codec: codec_of(r),
        width: trunc32(
            match r.width {
                Some(w) => w as int,
                None => 0,
            },
        ),
        height: trunc32(
            match r.height {
                Some(h) => h as int,
                None => 0,
            },
        ),
        bitrate_kbps: kbps_of(r.bit_rate),
        framerate_milli: match r.r_frame_rate {
            Some(f) => fraction_milli_spec(f@),
            None => None,
        },
    }
}

pub open spec fn audio_view_raw(r: RawStream) -> AudioView {
    AudioView {
        index: trunc32(r.index as int),
        codec: codec_of(r),
        channels: trunc32(
            match r.channels {
                Some(c) => c as int,
                None => 2,
            },
        ),
        language: view_of_opt_string(r.language),
        title: view_of_opt_string(r.title),
        is_default: r.is_default,
    }
}

pub open spec fn sub_view_raw(r: RawStream) -> SubView {
    SubView {
        index: trunc32(r.index as int),
        codec: codec_of(r),
        language: view_of_opt_string(r.language),
        title: view_of_opt_string(r.title),
        is_forced: r.is_forced,
        is_default: r.is_default,
    }
}


pub open spec fn audiop() -> spec_fn(RawStream) -> bool {
    |x: RawStream| is_audio_raw(x)
}

pub open spec fn subp() -> spec_fn(RawStream) -> bool {
    |x: RawStream| is_sub_raw(x)
}

pub open spec fn audio_viewer() -> spec_fn(RawStream) -> AudioView {
    |x: RawStream| audio_view_raw(x)
}

pub open spec fn sub_viewer() -> spec_fn(RawStream) -> SubView {
    |x: RawStream| sub_view_raw(x)
}

pub open spec fn audio_view_fn() -> spec_fn(AudioStream) -> AudioView {
    |a: AudioStream| a@
}

pub open spec fn sub_view_fn() -> spec_fn(SubtitleStream) -> SubView {
    |t: SubtitleStream| t@
}

/// The container name of a report, defaulted.
pub open spec fn container_of(f: RawFormat) -> Seq<char> {
    match f.format_name {
        Some(x) => x@,
        None => "unknown"@,
    }
}

/// The duration of a report in milliseconds; unreadable durations become 0.
pub open spec fn duration_of(f: RawFormat) -> int {
    match f.duration {
        Some(d) => match decimal_milli_spec(d@) {
            Some(v) => v,
            None => 0,
        },
        None => 0,
    }
}

fn stream_codec(codec_name: &Option<String>) -> (r: String)
    ensures
        r@ == (match codec_name {
            Some(c) => c@,
            None => "unknown"@,
        }),
{
    match codec_name {
        Some(c) => c.clone(),
        None => String::from_str("unknown"),
    }
}

fn opt_clone(o: &Option<String>) -> (r: Option<String>)
    ensures
        view_of_opt_string(r) == view_of_opt_string(*o),
        r is Some <==> *o is Some,
{
    match o {
        Some(s) => Some(s.clone()),
        None => None,
    }
}

/// Read a `bit_rate` text as kbit/s.
fn parse_kbps(b: &Option<String>) -> (r: Option<u32>)
    ensures
        (match r {
            Some(x) => Some(x as int),
            None => None,
        }) == kbps_of(*b),
{
    match b {
        Some(s) => {
            let v = chars_of(s.as_str());
            let n: usize = v.len();
            proof {
                assert(v@.subrange(0, n as int) =~= v@);
            }
            match parse_u64_range(&v, 0, n) {
                Some(x) => Some(((x / 1000) % 0x1_0000_0000) as u32),
                None => None,
            }
        },
        None => None,
    }
}

/// Interpret a probe report: container and duration from the format object,
/// the first video stream, and every audio and subtitle stream in order.
pub fn parse_probe_output(format: Option<RawFormat>, streams: Vec<RawStream>) -> (r: Result<
    MediaInfo,
    crate::transcode::TranscodeError,
>)
    ensures
        match r {
            Ok(m) => format is Some && {
                let f = format->Some_0;
                &&& m.container@ == container_of(f)
                &&& m.duration_ms as int == duration_of(f)
                &&& (match m.bitrate_kbps {
                    Some(b) => Some(b as int),
                    None => None,
                }) == kbps_of(f.bit_rate)
                &&& (match m.video {
                    Some(v) => Some(v@),
                    None => None,
                }) == (match first_video_from(streams@, 0) {
                    Some(k) => Some(video_view_raw(streams@[k])),
                    None => None,
                })
                &&& m.audio@.map_values(audio_view_fn()) == streams@.filter(audiop()).map_values(
                    audio_viewer(),
                )
                &&& m.subtitles@.map_values(sub_view_fn()) == streams@.filter(subp()).map_values(
                    sub_viewer(),
                )
            },
            Err(e) => format is None && e matches crate::transcode::TranscodeError::ProbeFailed(_),
        },
{
    let f = match format {
        Some(f) => f,
        None => {
            return Err(
                crate::transcode::TranscodeError::ProbeFailed(String::from_str("missing format")),
            );
        },
    };
    let container = match &f.format_name {
        Some(x) => x.clone(),
        None => String::from_str("unknown"),
    };
    let duration_ms: u64 = match &f.duration {
        Some(d) => match parse_decimal_milli(d.as_str()) {
            Some(v) => v,
            None => 0,
        },
        None => 0,
    };
    let bitrate_kbps = parse_kbps(&f.bit_rate);

    let mut video: Option<VideoStream> = None;
    let mut audio: Vec<AudioStream> = Vec::new();
    let mut subtitles: Vec<SubtitleStream> = Vec::new();
    let n: usize = streams.len();
    proof {
        reveal_strlit("video");
        reveal_strlit("audio");
        reveal_strlit("subtitle");
        assert("video"@[0] == 'v');
        assert("audio"@[0] == 'a');
        assert("subtitle"@[0] == 's');
    }
    let mut i: usize = 0;
    while i < n
        invariant
            "video"@ != "audio"@,
            "video"@ != "subtitle"@,
            "audio"@ != "subtitle"@,
            0 <= i <= n,
            n == streams@.len(),
            (match video {
                Some(v) => Some(v@),
                None => None,
            }) == (match first_video_from(streams@.take(i as int), 0) {
                Some(k) => Some(video_view_raw(streams@[k])),
                None => None,
            }),
            match first_video_from(streams@.take(i as int), 0) {
                Some(k) => first_video_from(streams@, 0) == Some(k),
                None => first_video_from(streams@, 0) == first_video_from(streams@, i as int),
            },
            audio@.map_values(audio_view_fn()) == streams@.take(i as int).filter(
                audiop(),
            ).map_values(audio_viewer()),
            subtitles@.map_values(sub_view_fn()) == streams@.take(i as int).filter(
                subp(),
            ).map_values(sub_viewer()),
        decreases n - i,
    {
        let s = &streams[i];
        let ghost pre = streams@.take(i as int);
        proof {
            reveal_strlit("video");
            reveal_strlit("audio");
            reveal_strlit("subtitle");
            assert(streams@.take(i + 1 as int).drop_last() =~= pre);
            assert(streams@.take(i + 1 as int).last() == streams@[i as int]);
            lemma_first_video_take_step(streams@, i as int);
        }
        if crate::strutil::str_eq(s.codec_type.as_str(), "video") {
            if video.is_none() {
                let idx = ((s.index % 0x1_0000_0000) as u32);
                let width: u32 = match s.width {
                    Some(w) => ((w % 0x1_0000_0000) as u32),
                    None => 0,
                };
                let height: u32 = match s.height {
                    Some(h) => ((h % 0x1_0000_0000) as u32),
                    None => 0,
                };
                let vbr = parse_kbps(&s.bit_rate);
                let fr: Option<u64> = match &s.r_frame_rate {
                    Some(t) => parse_fraction(t.as_str()),
                    None => None,
                };
                video = Some(
                    VideoStream {
                        index: idx,
                        codec: stream_codec(&s.codec_name),
                        width,
                        height,
                        bitrate_kbps: vbr,
                        framerate_milli: fr,
                    },
                );
            }
            proof {
                reveal_strlit("video");
                reveal_strlit("audio");
                reveal_strlit("subtitle");
                lemma_filter_take_step_audio(streams@, i as int);
                lemma_filter_take_step_sub(streams@, i as int);
                assert(!is_audio_raw(streams@[i as int]));
                assert(!is_sub_raw(streams@[i as int]));
                assert(streams@.take(i + 1 as int).filter(audiop()) == pre.filter(audiop()));
                assert(audio@.map_values(audio_view_fn()) == streams@.take(i + 1 as int).filter(
                    audiop(),
                ).map_values(audio_viewer()));
                assert(subtitles@.map_values(sub_view_fn()) == streams@.take(i + 1 as int).filter(
                    subp(),
                ).map_values(sub_viewer()));
            }
        } else if crate::strutil::str_eq(s.codec_type.as_str(), "audio") {
            let channels: u32 = match s.channels {
                Some(c) => ((c % 0x1_0000_0000) as u32),
                None => 2,
            };
            let a = AudioStream {
                index: ((s.index % 0x1_0000_0000) as u32),
                codec: stream_codec(&s.codec_name),
                channels,
                language: opt_clone(&s.language),
                title: opt_clone(&s.title),
                is_default: s.is_default,
            };
            proof {
                reveal_strlit("video");
                reveal_strlit("audio");
            }
            let ghost olda = audio@;
            audio.push(a);
            proof {
                lemma_filter_take_step_audio(streams@, i as int);
                lemma_filter_take_step_sub(streams@, i as int);
                assert(a@ == audio_view_raw(streams@[i as int]));
                assert(audio@.map_values(audio_view_fn()) =~= olda.map_values(
                    audio_view_fn(),
                ).push(a@));
                assert(streams@.take(i + 1 as int).filter(audiop()).map_values(audio_viewer())
                    =~= pre.filter(audiop()).map_values(audio_viewer()).push(
                    audio_view_raw(streams@[i as int]),
                ));
            }
        } else if crate::strutil::str_eq(s.codec_type.as_str(), "subtitle") {
            let t = SubtitleStream {
                index: ((s.index % 0x1_0000_0000) as u32),
                codec: stream_codec(&s.codec_name),
                language: opt_clone(&s.language),
                title: opt_clone(&s.title),
                is_forced: s.is_forced,
                is_default: s.is_default,
            };
            proof {
                reveal_strlit("video");
                reveal_strlit("audio");
                reveal_strlit("subtitle");
            }
            let ghost olds = subtitles@;
            subtitles.push(t);
            proof {
                lemma_filter_take_step_audio(streams@, i as int);
                lemma_filter_take_step_sub(streams@, i as int);
                assert(t@ == sub_view_raw(streams@[i as int]));
                assert(subtitles@.map_values(sub_view_fn()) =~= olds.map_values(
                    sub_view_fn(),
                ).push(t@));
                assert(streams@.take(i + 1 as int).filter(subp()).map_values(sub_viewer())
                    =~= pre.filter(subp()).map_values(sub_viewer()).push(
                    sub_view_raw(streams@[i as int]),
                ));
            }
        } else {
            proof {
                reveal_strlit("video");
                reveal_strlit("audio");
                reveal_strlit("subtitle");
                lemma_filter_take_step_audio(streams@, i as int);
                lemma_filter_take_step_sub(streams@, i as int);
            }
        }
        i += 1;
    }
    proof {
        assert(streams@.take(n as int) =~= streams@);
    }
    Ok(MediaInfo { container, duration_ms, bitrate_kbps, video, audio, subtitles })
}

/// How the first video stream of a prefix grows with the prefix.
proof fn lemma_first_video_take_step(s: Seq<RawStream>, i: int)
    requires
        0 <= i < s.len(),
    ensures
        first_video_from(s.take(i + 1), 0) == (match first_video_from(s.take(i), 0) {
            Some(k) => Some(k),
            None => if is_video_raw(s[i]) {
                Some(i)
            } else {
                None
            },
        }),
{
    lemma_first_video_prefix(s, i, 0);
}

/// Scanning a longer prefix first agrees with the shorter prefix, then sees
/// its last element.
proof fn lemma_first_video_prefix(s: Seq<RawStream>, i: int, j: int)
    requires
        0 <= j <= i < s.len(),
    ensures
        first_video_from(s.take(i + 1), j) == (match first_video_from(s.take(i), j) {
            Some(k) => Some(k),
            None => if is_video_raw(s[i]) {
                Some(i)
            } else {
                None
            },
        }),
    decreases i - j,
{
    assert(s.take(i + 1)[j] == s[j]);
    if j < i {
        assert(s.take(i)[j] == s[j]);
        if !is_video_raw(s[j]) {
            lemma_first_video_prefix(s, i, j + 1);
        }
    } else {
        assert(first_video_from(s.take(i), j) is None);
    }
}

proof fn lemma_filter_take_step_audio(s: Seq<RawStream>, i: int)
    requires
        0 <= i < s.len(),
    ensures
        s.take(i + 1).filter(audiop()) == if is_audio_raw(s[i]) {
            s.take(i).filter(audiop()).push(s[i])
        } else {
            s.take(i).filter(audiop())
        },
{
    assert(s.take(i + 1).drop_last() =~= s.take(i));
    assert(s.take(i + 1).last() == s[i]);
    reveal(Seq::filter);
}

proof fn lemma_filter_take_step_sub(s: Seq<RawStream>, i: int)
    requires
        0 <= i < s.len(),
    ensures
        s.take(i + 1).filter(subp()) == if is_sub_raw(s[i]) {
            s.take(i).filter(subp()).push(s[i])
        } else {
            s.take(i).filter(subp())
        },
{
    assert(s.take(i + 1).drop_last() =~= s.take(i));
    assert(s.take(i + 1).last() == s[i]);
    reveal(Seq::filter);
}


} // verus!

use rustfin::decision::{decide, ClientCaps, PlayMethod, TranscodeReason};
use rustfin::probe::{AudioStream, MediaInfo, VideoStream};

fn test_media() -> MediaInfo {
    MediaInfo {
        container: "matroska,webm".into(),
        duration_ms: 3_600_000,
        bitrate_kbps: Some(5000),
        video: Some(VideoStream {
            index: 0,
            codec: "h264".into(),
            width: 1920,
            height: 1080,
            bitrate_kbps: Some(4000),
            framerate_milli: Some(23976),
        }),
        audio: vec![AudioStream {
            index: 1,
            codec: "aac".into(),
            channels: 2,
            language: Some("eng".into()),
            title: None,
            is_default: true,
        }],
        subtitles: vec![],
    }
}

#[test]
fn direct_play_when_all_compatible() {
    let media = test_media();
    let caps = ClientCaps::default();
    let d = decide(&media, &caps);
    assert_eq!(d.method, PlayMethod::DirectPlay);
    assert!(d.reasons.is_empty());
}

#[test]
fn transcode_when_codec_unsupported() {
    let mut media = test_media();
    media.video.as_mut().unwrap().codec = "mpeg2video".into();
    let caps = ClientCaps::default();
    let d = decide(&media, &caps);
    assert_eq!(d.method, PlayMethod::Transcode);
    assert!(d.transcode_video);
    assert!(d.reasons.contains(&TranscodeReason::VideoCodecNotSupported));
}

#[test]
fn remux_when_only_container_mismatch() {
    let mut media = test_media();
    media.container = "avi".into();
    let caps = ClientCaps::default();
    let d = decide(&media, &caps);
    assert_eq!(d.method, PlayMethod::Remux);
    assert!(d.reasons.contains(&TranscodeReason::ContainerNotSupported));
}

#[test]
fn transcode_when_bitrate_too_high() {
    let media = test_media();
    let caps = ClientCaps { max_bitrate_kbps: Some(2000), ..ClientCaps::default() };
    let d = decide(&media, &caps);
    assert_eq!(d.method, PlayMethod::Transcode);
    assert!(d.reasons.contains(&TranscodeReason::VideoBitrateTooHigh));
}

#[test]
fn transcode_when_resolution_too_high() {
    let media = test_media();
    let caps = ClientCaps {
        max_width: Some(1280),
        max_height: Some(720),
        ..ClientCaps::default()
    };
    let d = decide(&media, &caps);
    assert_eq!(d.method, PlayMethod::Transcode);
    assert!(d.reasons.contains(&TranscodeReason::VideoResolutionTooHigh));
}

#[test]
fn resolution_reason_not_duplicated() {
    let media = test_media();
    let caps = ClientCaps {
        max_width: Some(1280),
        max_height: Some(720),
        ..ClientCaps::default()
    };
    let d = decide(&media, &caps);
    let hits = d
        .reasons
        .iter()
        .filter(|r| **r == TranscodeReason::VideoResolutionTooHigh)
        .count();
    assert_eq!(hits, 1);
}

#[test]
fn container_then_codec_accumulates_reasons() {
    // container avi alone is a remux; an unsupported codec turns it into a
    // transcode with both reasons recorded
    let mut media = test_media();
    media.container = "avi".into();
    let caps = ClientCaps::default();
    let d = decide(&media, &caps);
    assert_eq!(d.method, PlayMethod::Remux);
    assert_eq!(d.reasons, vec![TranscodeReason::ContainerNotSupported]);

    media.video.as_mut().unwrap().codec = "mpeg2video".into();
    let d2 = decide(&media, &caps);
    assert_eq!(d2.method, PlayMethod::Transcode);
    assert!(d2.transcode_video);
    assert!(d2.reasons.contains(&TranscodeReason::ContainerNotSupported));
    assert!(d2.reasons.contains(&TranscodeReason::VideoCodecNotSupported));
}

#[test]
fn audio_codec_drives_transcode() {
    let mut media = test_media();
    media.audio[0].codec = "dts".into();
    let caps = ClientCaps::default();
    let d = decide(&media, &caps);
    assert_eq!(d.method, PlayMethod::Transcode);
    assert!(d.transcode_audio);
    assert!(d.reasons.contains(&TranscodeReason::AudioCodecNotSupported));
}

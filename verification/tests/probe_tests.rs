use rustfin::probe::{parse_decimal_milli, parse_fraction, parse_probe_output, RawFormat, RawStream};

fn raw_stream(index: u64, codec_type: &str, codec_name: &str) -> RawStream {
    RawStream {
        index,
        codec_type: codec_type.to_string(),
        codec_name: Some(codec_name.to_string()),
        width: None,
        height: None,
        bit_rate: None,
        r_frame_rate: None,
        channels: None,
        language: None,
        title: None,
        is_default: false,
        is_forced: false,
    }
}

#[test]
fn parse_probe_json() {
    let format = RawFormat {
        format_name: Some("matroska,webm".to_string()),
        duration: Some("7200.123".to_string()),
        bit_rate: Some("5000000".to_string()),
    };
    let mut video = raw_stream(0, "video", "h264");
    video.width = Some(1920);
    video.height = Some(1080);
    video.r_frame_rate = Some("24000/1001".to_string());
    video.is_default = true;
    let mut audio = raw_stream(1, "audio", "aac");
    audio.channels = Some(6);
    audio.language = Some("eng".to_string());
    audio.title = Some("Surround".to_string());
    audio.is_default = true;
    let mut sub1 = raw_stream(2, "subtitle", "subrip");
    sub1.language = Some("eng".to_string());
    let mut sub2 = raw_stream(3, "subtitle", "hdmv_pgs_subtitle");
    sub2.language = Some("eng".to_string());
    sub2.is_forced = true;

    let info = parse_probe_output(Some(format), vec![video, audio, sub1, sub2]).unwrap();
    assert_eq!(info.container, "matroska,webm");
    assert!((info.duration_ms as f64 / 1000.0 - 7200.123).abs() < 0.001);
    assert_eq!(info.bitrate_kbps, Some(5000));

    let v = info.video.unwrap();
    assert_eq!(v.codec, "h264");
    assert_eq!(v.width, 1920);
    assert_eq!(v.height, 1080);
    assert!((v.framerate_milli.unwrap() as f64 / 1000.0 - 23.976).abs() < 0.01);

    assert_eq!(info.audio.len(), 1);
    assert_eq!(info.audio[0].codec, "aac");
    assert_eq!(info.audio[0].channels, 6);
    assert_eq!(info.audio[0].language.as_deref(), Some("eng"));
    assert!(info.audio[0].is_default);

    assert_eq!(info.subtitles.len(), 2);
    assert_eq!(info.subtitles[0].codec, "subrip");
    assert!(!info.subtitles[0].is_forced);
    assert_eq!(info.subtitles[1].codec, "hdmv_pgs_subtitle");
    assert!(info.subtitles[1].is_forced);
}

#[test]
fn parse_fraction_works() {
    assert!((parse_fraction("24000/1001").unwrap() as f64 / 1000.0 - 23.976).abs() < 0.01);
    assert!((parse_fraction("30").unwrap() as f64 / 1000.0 - 30.0).abs() < 0.001);
    assert!(parse_fraction("0/0").is_none());
}

#[test]
fn probe_without_format_fails() {
    let r = parse_probe_output(None, vec![]);
    assert!(r.is_err());
}

#[test]
fn decimal_reading_in_thousandths() {
    assert_eq!(parse_decimal_milli("1.5"), Some(1500));
    assert_eq!(parse_decimal_milli("0.25"), Some(250));
    assert_eq!(parse_decimal_milli("12"), Some(12000));
    assert_eq!(parse_decimal_milli("7200.1239"), Some(7200123));
    assert_eq!(parse_decimal_milli("not-a-number"), None);
    assert_eq!(parse_decimal_milli(""), None);
}

#[test]
fn probe_defaults_for_missing_fields() {
    let format = RawFormat { format_name: None, duration: None, bit_rate: None };
    let info = parse_probe_output(Some(format), vec![raw_stream(0, "audio", "mp3")]).unwrap();
    assert_eq!(info.container, "unknown");
    assert_eq!(info.duration_ms, 0);
    assert_eq!(info.bitrate_kbps, None);
    assert!(info.video.is_none());
    // a missing channel count defaults to stereo
    assert_eq!(info.audio[0].channels, 2);
}

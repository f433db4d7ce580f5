use rustfin::gpu::GpuCapabilities;
use rustfin::hls::{
    is_safe_segment_name, segment_content_type, PLAYLIST_CONTENT_TYPE, SEGMENT_CONTENT_TYPE_MP4,
    SEGMENT_CONTENT_TYPE_TS,
};
use rustfin::session::SessionManager;
use rustfin::transcode::{HwAccel, TranscodeError, TranscoderConfig};

fn test_config(max_concurrent: usize, idle_timeout_secs: u64) -> TranscoderConfig {
    TranscoderConfig {
        ffmpeg_path: "ffmpeg".to_string(),
        ffprobe_path: "ffprobe".to_string(),
        transcode_dir: "/tmp/transcode".to_string(),
        max_concurrent,
        segment_secs: 4,
        idle_timeout_secs,
        hw_accel: None,
    }
}

#[test]
fn content_types() {
    assert_eq!(segment_content_type("seg_00001.ts"), SEGMENT_CONTENT_TYPE_TS);
    assert_eq!(segment_content_type("seg_00001.m4s"), SEGMENT_CONTENT_TYPE_MP4);
    assert_eq!(segment_content_type("init.mp4"), SEGMENT_CONTENT_TYPE_MP4);
    assert_eq!(PLAYLIST_CONTENT_TYPE, "application/vnd.apple.mpegurl");
}

#[test]
fn best_accelerator_preference() {
    let caps = GpuCapabilities { nvenc: true, vaapi: true, qsv: false, videotoolbox: false };
    assert!(matches!(caps.best(), Some(HwAccel::Nvenc)));

    let caps = GpuCapabilities { nvenc: false, vaapi: true, qsv: true, videotoolbox: false };
    assert!(matches!(caps.best(), Some(HwAccel::Qsv)));

    let caps = GpuCapabilities { nvenc: false, vaapi: true, qsv: false, videotoolbox: false };
    assert!(matches!(caps.best(), Some(HwAccel::Vaapi)));

    let caps = GpuCapabilities { nvenc: false, vaapi: false, qsv: false, videotoolbox: false };
    assert!(caps.best().is_none());
}

#[test]
fn encoder_detection_from_listing() {
    let caps = GpuCapabilities::from_encoder_list("V..... h264_nvenc  NVIDIA H.264 encoder");
    assert!(caps.nvenc);
    assert!(!caps.vaapi);
    assert!(!caps.qsv);
    assert!(!caps.videotoolbox);
}

#[test]
fn admission_is_bounded() {
    // two concurrent sessions are allowed, the third must be refused
    let mut mgr = SessionManager::new(test_config(2, 60));
    let p1 = mgr.create_session("/media/a.mkv".to_string(), None, None, 0).unwrap();
    let p2 = mgr.create_session("/media/b.mkv".to_string(), None, None, 0).unwrap();
    assert_ne!(p1.session_id, p2.session_id);
    assert_eq!(p1.session_id.len(), 36);
    assert_eq!(mgr.active_count(), 2);

    let third = mgr.create_session("/media/c.mkv".to_string(), None, None, 0);
    assert!(matches!(third, Err(TranscodeError::MaxTranscodesReached(2))));
    assert_eq!(mgr.active_count(), 2);

    mgr.stop_session(&p1.session_id).unwrap();
    assert_eq!(mgr.active_count(), 1);
    let fourth = mgr.create_session("/media/c.mkv".to_string(), None, None, 0);
    assert!(fourth.is_ok());
    assert_eq!(mgr.active_count(), 2);
}

#[test]
fn idle_sessions_are_reaped() {
    // with a one-second timeout an unpinged session is reclaimed
    let mut mgr = SessionManager::new(test_config(4, 1));
    let plan = mgr.create_session("/media/a.mkv".to_string(), None, None, 0).unwrap();
    assert!(mgr.ping(&plan.session_id, 0));

    let removed = mgr.cleanup_idle(1);
    assert_eq!(removed.len(), 1);
    assert_eq!(removed[0].id, plan.session_id);
    assert_eq!(removed[0].output_dir, plan.output_dir);
    assert_eq!(mgr.active_count(), 0);

    assert!(!mgr.ping(&plan.session_id, 2));
    assert!(mgr.get_file_path(&plan.session_id, "master.m3u8").is_err());
}

#[test]
fn fresh_ping_survives_reap() {
    let mut mgr = SessionManager::new(test_config(4, 10));
    let plan = mgr.create_session("/media/a.mkv".to_string(), None, None, 0).unwrap();
    assert!(mgr.ping(&plan.session_id, 5));
    // at time 14 the last ping is 9 seconds old: inside the timeout
    let removed = mgr.cleanup_idle(14);
    assert_eq!(removed.len(), 0);
    assert!(mgr.ping(&plan.session_id, 14));
    // at time 25 the session is idle and goes
    let removed = mgr.cleanup_idle(25);
    assert_eq!(removed.len(), 1);
}

#[test]
fn session_file_paths_join_the_output_dir() {
    let mut mgr = SessionManager::new(test_config(4, 60));
    let plan = mgr.create_session("/media/a.mkv".to_string(), None, None, 0).unwrap();
    let p = mgr.get_file_path(&plan.session_id, "seg_00001.ts").unwrap();
    assert_eq!(p, format!("{}/seg_00001.ts", plan.output_dir));
    assert!(plan.output_dir.starts_with("/tmp/transcode/"));
}

#[test]
fn encoder_arguments() {
    let mut mgr = SessionManager::new(test_config(4, 60));
    let plan = mgr
        .create_session("/media/a.mkv".to_string(), Some(90_500), None, 0)
        .unwrap();
    let args = &plan.args;
    assert_eq!(args[0], "-hide_banner");
    assert_eq!(args[1], "-y");
    assert_eq!(args[2], "-ss");
    assert_eq!(args[3], "90.500");
    assert_eq!(args[4], "-i");
    assert_eq!(args[5], "/media/a.mkv");
    assert_eq!(args[6], "-c:v");
    assert_eq!(args[7], "libx264");
    // software encode carries quality flags
    assert!(args.contains(&"-preset".to_string()));
    assert!(args.contains(&"-crf".to_string()));
    assert!(args.contains(&"hls".to_string()));
    assert!(args.contains(&"-hls_time".to_string()));
    assert!(args.contains(&"4".to_string()));
    assert!(args.contains(&"independent_segments".to_string()));
    assert_eq!(args[args.len() - 1], format!("{}/master.m3u8", plan.output_dir));
}

#[test]
fn encoder_arguments_with_override_and_hw() {
    let mut cfg = test_config(4, 60);
    cfg.hw_accel = Some(HwAccel::Nvenc);
    let mut mgr = SessionManager::new(cfg);
    let plan = mgr.create_session("/media/a.mkv".to_string(), None, None, 0).unwrap();
    assert!(plan.args.contains(&"-hwaccel".to_string()));
    assert!(plan.args.contains(&"cuda".to_string()));
    assert!(plan.args.contains(&"h264_nvenc".to_string()));
    assert!(!plan.args.contains(&"-preset".to_string()));

    let mut mgr2 = SessionManager::new(test_config(4, 60));
    let plan2 = mgr2
        .create_session("/media/a.mkv".to_string(), None, Some("hevc_nvenc"), 0)
        .unwrap();
    assert!(plan2.args.contains(&"hevc_nvenc".to_string()));
    assert!(!plan2.args.contains(&"libx264".to_string()));
}

#[test]
fn segment_name_safety() {
    assert!(is_safe_segment_name("master.m3u8"));
    assert!(is_safe_segment_name("seg_00001.ts"));
    assert!(!is_safe_segment_name("../secrets"));
    assert!(!is_safe_segment_name("a/b.ts"));
    assert!(!is_safe_segment_name("a\\b.ts"));
}

#[test]
fn error_messages() {
    assert_eq!(
        TranscodeError::MaxTranscodesReached(2).message(),
        "max transcodes reached (2)"
    );
    assert_eq!(
        TranscodeError::SessionNotFound("abc".to_string()).message(),
        "session not found: abc"
    );
}

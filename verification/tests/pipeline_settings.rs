use std::path::PathBuf;
use std::time::Duration;

use macos_webrtc_h264::pipeline::file_h264::{
    frame_duration_millis, loop_flag, replay_access_units, FileH264Config, ReplayCursor,
    VIDEO_FILE_REQUIRED,
};
use macos_webrtc_h264::pipeline::macos_screen::{
    encoded_frame_usable, key_frame_interval, scaled_dimensions, selected_display, PipelineConfig as ScreenConfig,
    NO_DISPLAY_ERROR,
};
use macos_webrtc_h264::pipeline::{
    env_i32, now_unix_ms, same_text, unix_ms_from_elapsed, PipelineConfig, PipelineEnv, SourceConfig,
    CAMERA_AUDIO_UNSUPPORTED, CAMERA_UNSUPPORTED, SCREEN_AUDIO_UNSUPPORTED,
};

fn empty_env() -> PipelineEnv {
    PipelineEnv {
        source: None,
        display_id: None,
        fps: None,
        max_width: None,
        target_bitrate_bps: None,
        video_file: None,
        file_loop: None,
    }
}

fn some(s: &str) -> Option<String> {
    Some(s.to_string())
}

#[test]
fn env_i32_parses_or_falls_back() {
    assert_eq!(env_i32(&some("42"), 7), 42);
    assert_eq!(env_i32(&some("+8"), 7), 8);
    assert_eq!(env_i32(&some("-3"), 7), -3);
    assert_eq!(env_i32(&some("0012"), 7), 12);
    assert_eq!(env_i32(&some("-2147483648"), 7), i32::MIN);
    assert_eq!(env_i32(&some("2147483648"), 7), 7);
    assert_eq!(env_i32(&some(" 5"), 7), 7);
    assert_eq!(env_i32(&some("5x"), 7), 7);
    assert_eq!(env_i32(&some(""), 7), 7);
    assert_eq!(env_i32(&some("-"), 7), 7);
    assert_eq!(env_i32(&None, 7), 7);
}

#[test]
fn same_text_compares_characters() {
    assert!(same_text("file", "file"));
    assert!(!same_text("file", "File"));
    assert!(!same_text("file", "files"));
}

#[test]
fn screen_settings_default() {
    let c = ScreenConfig::from_env(&empty_env());
    assert_eq!(c.display_id, 0);
    assert_eq!(c.fps, 15);
    assert_eq!(c.max_width, 1280);
    assert_eq!(c.target_average_bitrate_bps, 5_000_000);
}

#[test]
fn screen_settings_keep_their_floors() {
    let mut env = empty_env();
    env.display_id = some("-5");
    env.fps = some("0");
    env.max_width = some("100");
    env.target_bitrate_bps = some("1000");
    let c = ScreenConfig::from_env(&env);
    assert_eq!(c.display_id, 0);
    assert_eq!(c.fps, 1);
    assert_eq!(c.max_width, 320);
    assert_eq!(c.target_average_bitrate_bps, 500_000);
    env.display_id = some("69733382");
    env.fps = some("30");
    env.max_width = some("1920");
    env.target_bitrate_bps = some("8000000");
    let c = ScreenConfig::from_env(&env);
    assert_eq!((c.display_id, c.fps, c.max_width, c.target_average_bitrate_bps), (69733382, 30, 1920, 8_000_000));
}

#[test]
fn source_defaults_to_screen() {
    let config = PipelineConfig::from_env(empty_env()).unwrap();
    assert!(matches!(config.source, SourceConfig::MacosScreen(_)));
    assert_eq!(config.source.source_name(), "screen");
    assert!(config.source.check_supported().is_ok());
}

#[test]
fn file_source_needs_a_file() {
    let mut env = empty_env();
    env.source = some("file");
    let err = PipelineConfig::from_env(env).err().unwrap();
    assert_eq!(err, VIDEO_FILE_REQUIRED);
    assert_eq!(err, "POC_VIDEO_FILE is required when POC_SOURCE=file");
}

#[test]
fn file_source_reads_its_settings() {
    let mut env = empty_env();
    env.source = some("file");
    env.video_file = Some(PathBuf::from("/tmp/clip.h264"));
    env.fps = some("-4");
    env.file_loop = some("no");
    let config = PipelineConfig::from_env(env).unwrap();
    match config.source {
        SourceConfig::FileH264(ref file) => {
            assert_eq!(file.path, PathBuf::from("/tmp/clip.h264"));
            assert_eq!(file.fps, 1);
            assert!(!file.loop_forever);
        }
        _ => panic!("expected the file source"),
    }
    assert_eq!(config.source.source_name(), "file");
    assert!(config.source.check_supported().is_ok());
}

#[test]
fn file_settings_default() {
    let mut env = empty_env();
    env.video_file = Some(PathBuf::from("a.h264"));
    let file = FileH264Config::from_env(env).unwrap();
    assert_eq!(file.fps, 15);
    assert!(file.loop_forever);
}

#[test]
fn placeholder_sources_are_refused_at_start() {
    for (name, reason, label) in [
        ("camera", CAMERA_UNSUPPORTED, "camera"),
        ("camera-audio", CAMERA_AUDIO_UNSUPPORTED, "camera-audio"),
        ("screen-audio", SCREEN_AUDIO_UNSUPPORTED, "screen-audio"),
    ] {
        let mut env = empty_env();
        env.source = some(name);
        let config = PipelineConfig::from_env(env).unwrap();
        assert_eq!(config.source.source_name(), label);
        assert_eq!(config.source.check_supported().unwrap_err(), reason);
    }
    assert!(CAMERA_UNSUPPORTED.starts_with("POC_SOURCE=camera is not implemented yet"));
}

#[test]
fn unknown_source_is_an_error() {
    let mut env = empty_env();
    env.source = some("webcam");
    let err = PipelineConfig::from_env(env).err().unwrap();
    assert_eq!(
        err,
        "unsupported POC_SOURCE `webcam`; expected one of screen, file, camera, camera-audio, screen-audio"
    );
}

#[test]
fn loop_flag_defaults_to_yes() {
    assert!(loop_flag(&None));
    for yes in ["1", "true", "TRUE", "yes", "YES"] {
        assert!(loop_flag(&some(yes)));
    }
    for no in ["0", "True", "no", "", "y"] {
        assert!(!loop_flag(&some(no)));
    }
}

#[test]
fn frame_duration_is_a_thousand_over_fps() {
    assert_eq!(frame_duration_millis(15), 66);
    assert_eq!(frame_duration_millis(30), 33);
    assert_eq!(frame_duration_millis(0), 1000);
    assert_eq!(frame_duration_millis(-5), 1000);
    assert_eq!(frame_duration_millis(2000), 0);
}

#[test]
fn capture_size_is_scaled_to_the_width_limit() {
    assert_eq!(scaled_dimensions(2560, 1440, 1280), (1280, 720));
    assert_eq!(scaled_dimensions(3024, 1964, 1280), (1280, 831));
    assert_eq!(scaled_dimensions(800, 600, 1280), (800, 600));
    assert_eq!(scaled_dimensions(1280, 1024, 1280), (1280, 1024));
    assert_eq!(scaled_dimensions(0, 0, 1280), (1, 1));
    assert_eq!(scaled_dimensions(3000, 1, 1280), (1280, 1));
    assert_eq!(scaled_dimensions(-10, 50, -20), (1, 100));
}

#[test]
fn display_is_picked_by_id_or_first() {
    assert_eq!(selected_display(&[], 0).unwrap_err(), NO_DISPLAY_ERROR);
    assert_eq!(selected_display(&[], 3).unwrap_err(), "ScreenCaptureKit found no displays");
    assert_eq!(selected_display(&[5, 7, 9, 7], 7), Ok(1));
    assert_eq!(selected_display(&[5, 7], 0), Ok(0));
    assert_eq!(selected_display(&[5, 7], 42), Ok(0));
}

#[test]
fn keyframes_come_every_two_seconds() {
    assert_eq!(key_frame_interval(15), 30);
    assert_eq!(key_frame_interval(1), 2);
    assert_eq!(key_frame_interval(0), 0);
    assert_eq!(key_frame_interval(-4), -4);
    assert_eq!(key_frame_interval(i32::MAX), i32::MAX);
    assert_eq!(key_frame_interval(1 << 30), 1 << 30);
    assert_eq!(key_frame_interval(1_073_741_823), 2_147_483_646);
    assert_eq!(key_frame_interval(i32::MIN), i32::MIN);
}

#[test]
fn only_successful_encodes_are_published() {
    assert!(encoded_frame_usable(0, false, false));
    assert!(!encoded_frame_usable(-12902, false, false));
    assert!(!encoded_frame_usable(0, true, false));
    assert!(!encoded_frame_usable(0, false, true));
}

#[test]
fn unix_ms_is_cut_to_64_bits() {
    assert_eq!(unix_ms_from_elapsed(Some(1_725_029_869_000)), 1_725_029_869_000);
    assert_eq!(unix_ms_from_elapsed(Some((1u128 << 64) + 3)), 3);
    assert_eq!(unix_ms_from_elapsed(None), 0);
}

#[test]
fn clock_reads_after_the_epoch() {
    let ms = now_unix_ms();
    assert!(ms > 1_600_000_000_000);
}

#[test]
fn replay_needs_access_units() {
    let d = Duration::from_millis(66);
    let err = replay_access_units(&[1, 2, 3], d, "/tmp/x.h264").unwrap_err();
    assert_eq!(
        err,
        "no access units found in /tmp/x.h264; expected an Annex-B H264 elementary stream"
    );
    let err = replay_access_units(&[0, 0, 0, 1, 0x09, 0xf0], d, "a").unwrap_err();
    assert_eq!(err, "Annex-B stream contained AUD markers but no video access units");
    let units = replay_access_units(&[0, 0, 0, 1, 0x41, 0x9a], d, "a").unwrap();
    assert_eq!(units.len(), 1);
    assert_eq!(units[0].data.to_vec(), vec![0, 0, 0, 1, 0x41, 0x9a]);
    assert_eq!(units[0].duration, d);
}

#[test]
fn replay_plays_in_order_and_loops_on_request() {
    let mut once = ReplayCursor::new(3, false);
    let order: Vec<Option<usize>> = (0..5).map(|_| once.next()).collect();
    assert_eq!(order, vec![Some(0), Some(1), Some(2), None, None]);
    let mut looping = ReplayCursor::new(2, true);
    let order: Vec<Option<usize>> = (0..5).map(|_| looping.next()).collect();
    assert_eq!(order, vec![Some(0), Some(1), Some(0), Some(1), Some(0)]);
    let mut empty = ReplayCursor::new(0, true);
    assert_eq!(empty.next(), None);
}

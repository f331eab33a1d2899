use rustream::annotations::{draw_line, draw_line_annotations, AnnotationTool, LineAnnotation};
use rustream::app::{next_display_frame, PageView, TextureId, MAX_QUEUED_FRAMES};
use rustream::capture::ScreenData;
use rustream::common::CaptureArea;
use rustream::config::{CaptureConfig, Config, VideoConfig, DEFAULT_FPS};
use rustream::ffmpeg_utils::{copy_rows_to_strided, FrameCopyError};
use rustream::hotkey::{HotkeyAction, HotkeyManager, KeyCombination, KEY_P, KEY_Q, KEY_S};
use rustream::hotkeys::{handle_key, is_paused, should_terminate, HotkeyConfig};
use rustream::metrics::{StreamingMetrics, TimingMetrics};
use rustream::multimonitor::{select_monitor, MonitorInfo};
use rustream::recorder_command::RecorderCommand;
use rustream::screen_capture::frame::{dimensions_from_captures, parse_h265_dimensions, DimensionsError};
use std::collections::VecDeque;
use std::path::PathBuf;

#[test]
fn default_shortcuts_trigger_their_actions() {
    let mut manager = HotkeyManager::new();
    assert_eq!(manager.handle_input(true, false, false, Some(KEY_S)), Some(HotkeyAction::ToggleStreaming));
    assert_eq!(manager.handle_input(false, false, false, None), None);
    assert_eq!(manager.handle_input(false, false, false, Some(KEY_P)), Some(HotkeyAction::TogglePreview));
    assert_eq!(manager.handle_input(true, false, false, Some(KEY_Q)), Some(HotkeyAction::Quit));
    assert_eq!(manager.handle_input(false, false, false, Some(KEY_S)), None);
}

#[test]
fn a_held_combination_triggers_once() {
    let mut manager = HotkeyManager::new();
    assert_eq!(manager.handle_input(true, false, false, Some(KEY_S)), Some(HotkeyAction::ToggleStreaming));
    assert_eq!(manager.handle_input(true, false, false, Some(KEY_S)), None);
    assert_eq!(manager.handle_input(true, false, false, None), None);
    assert_eq!(manager.handle_input(true, false, false, Some(KEY_S)), Some(HotkeyAction::ToggleStreaming));
}

#[test]
fn registered_shortcut_triggers_until_reset() {
    let mut manager = HotkeyManager::new();
    let combo = KeyCombination { ctrl: true, shift: true, alt: false, key: KEY_P };
    manager.register_shortcut(combo, HotkeyAction::Quit);
    assert_eq!(manager.handle_input(true, true, false, Some(KEY_P)), Some(HotkeyAction::Quit));
    assert_eq!(manager.handle_input(false, false, false, None), None);
    manager.reset_to_defaults();
    assert_eq!(manager.handle_input(true, true, false, Some(KEY_P)), None);
    assert_eq!(manager.handle_input(false, false, false, Some(KEY_P)), Some(HotkeyAction::TogglePreview));
}

#[test]
fn combination_codes_differ() {
    let a = KeyCombination { ctrl: true, shift: false, alt: false, key: KEY_S };
    let b = KeyCombination { ctrl: false, shift: false, alt: true, key: KEY_S };
    assert_eq!(a.code(), 83 * 8 + 4);
    assert_eq!(b.code(), 83 * 8 + 1);
}

fn hotkey_config() -> HotkeyConfig {
    HotkeyConfig { pause: 1, blank: 2, terminate: 3, paused: false, terminate_flag: false }
}

#[test]
fn pause_key_flips_the_pause() {
    let mut config = hotkey_config();
    handle_key(&mut config, 1, true);
    assert!(is_paused(&config));
    handle_key(&mut config, 1, false);
    assert!(is_paused(&config));
    handle_key(&mut config, 1, true);
    assert!(!is_paused(&config));
    assert!(!should_terminate(&config));
}

#[test]
fn terminate_key_ends_the_session_for_good() {
    let mut config = hotkey_config();
    handle_key(&mut config, 2, true);
    handle_key(&mut config, 9, true);
    assert_eq!(config, hotkey_config());
    handle_key(&mut config, 3, true);
    assert!(should_terminate(&config));
    handle_key(&mut config, 3, true);
    handle_key(&mut config, 1, true);
    assert!(should_terminate(&config));
}

#[test]
fn new_metrics_are_zero() {
    let metrics = StreamingMetrics::new();
    assert_eq!(metrics.capture.total_frames, 0);
    assert_eq!(metrics.display.min_duration, 0);
    assert_eq!(metrics.network.latency, 0);
}

#[test]
fn samples_update_the_timings() {
    let mut t = TimingMetrics::default();
    t.record_sample(100, false);
    assert_eq!((t.last_duration, t.min_duration, t.max_duration, t.avg_duration), (100, 100, 100, 100));
    assert_eq!((t.fps, t.total_frames, t.dropped_frames), (10_000, 1, 0));
    t.record_sample(300, true);
    assert_eq!((t.last_duration, t.min_duration, t.max_duration, t.avg_duration), (300, 100, 300, 200));
    assert_eq!((t.fps, t.total_frames, t.dropped_frames), (3_333, 2, 1));
    t.record_sample(0, false);
    assert_eq!((t.last_duration, t.min_duration, t.max_duration, t.avg_duration), (0, 0, 300, 133));
    assert_eq!((t.fps, t.total_frames, t.dropped_frames), (3_333, 3, 1));
}

#[test]
fn sample_counters_wrap_around() {
    let mut t = TimingMetrics::default();
    t.total_frames = u64::MAX;
    t.dropped_frames = u64::MAX;
    t.record_sample(7, true);
    assert_eq!((t.total_frames, t.dropped_frames, t.avg_duration), (0, 0, 7));
}

#[test]
fn timed_operations_are_counted() {
    let metrics = StreamingMetrics::new();
    let mut timing = TimingMetrics::default();
    let (_, ok) = metrics.time_operation(&mut timing, || -> Result<u32, String> { Ok(5) });
    assert_eq!(ok, Ok(5));
    let (_, err) = metrics.time_operation(&mut timing, || -> Result<u32, String> { Err("lost".to_string()) });
    assert_eq!(err, Err("lost".to_string()));
    assert_eq!((timing.total_frames, timing.dropped_frames), (2, 1));
    assert!(timing.min_duration <= timing.max_duration || timing.min_duration == 0);
}

#[test]
fn next_display_frame_takes_the_oldest() {
    let mut frames: VecDeque<u32> = (0..3).collect();
    assert_eq!(next_display_frame(&mut frames), Some(0));
    assert_eq!(frames, VecDeque::from(vec![1, 2]));
    let mut empty: VecDeque<u32> = VecDeque::new();
    assert_eq!(next_display_frame(&mut empty), None);
}

#[test]
fn next_display_frame_drops_a_long_queue() {
    let mut frames: VecDeque<u32> = (0..(MAX_QUEUED_FRAMES as u32 + 1)).collect();
    assert_eq!(next_display_frame(&mut frames), Some(0));
    assert!(frames.is_empty());
    let mut frames: VecDeque<u32> = (0..(MAX_QUEUED_FRAMES as u32)).collect();
    assert_eq!(next_display_frame(&mut frames), Some(0));
    assert_eq!(frames.len(), MAX_QUEUED_FRAMES - 1);
}

#[test]
fn texture_names_and_defaults() {
    assert_eq!(TextureId::default(), TextureId::Error);
    assert_eq!(TextureId::HomeIcon.name(), "HomeIcon");
    assert_eq!(TextureId::QuitIcon.name(), "QuitIcon");
    assert_eq!(TextureId::Error.name(), "Error");
    assert_eq!(PageView::default(), PageView::HomePage);
    assert_ne!(RecorderCommand::Capture, RecorderCommand::Stop);
    assert_ne!(AnnotationTool::Pen, AnnotationTool::Arrow);
}

fn monitor(id: usize) -> MonitorInfo {
    MonitorInfo { id, name: format!("Monitor {}", id + 1), width: 1920, height: 1080, refresh_rate: 60 }
}

#[test]
fn select_monitor_finds_the_id() {
    let chosen = select_monitor(vec![monitor(0), monitor(1), monitor(2)], 1);
    assert_eq!(chosen.id, 1);
    assert_eq!(chosen.name, "Monitor 2");
}

#[test]
fn rows_are_copied_into_a_strided_frame() {
    let mut dst = vec![0xaau8; 24];
    let src: Vec<u8> = (1..=16).collect();
    assert_eq!(copy_rows_to_strided(&mut dst, 12, &src, 2, 2), Ok(()));
    assert_eq!(dst[0..8], src[0..8]);
    assert_eq!(dst[8..12], [0xaa; 4]);
    assert_eq!(dst[12..20], src[8..16]);
    assert_eq!(dst[20..24], [0xaa; 4]);
}

#[test]
fn a_short_stride_is_refused() {
    let mut dst = vec![0u8; 24];
    let src = vec![1u8; 16];
    assert_eq!(
        copy_rows_to_strided(&mut dst, 4, &src, 2, 2),
        Err(FrameCopyError::StrideTooSmall { stride: 4, row_size: 8 })
    );
    assert_eq!(dst, vec![0u8; 24]);
}

#[test]
fn a_row_past_the_frame_stops_the_copy() {
    let mut dst = vec![0u8; 19];
    let src: Vec<u8> = (1..=16).collect();
    assert_eq!(
        copy_rows_to_strided(&mut dst, 12, &src, 2, 2),
        Err(FrameCopyError::RowOutOfBounds { row: 1, start: 12, row_size: 8, frame_len: 19 })
    );
    assert_eq!(dst[0..8], src[0..8]);
    assert_eq!(dst[8..19], [0u8; 11]);
}

#[test]
fn draw_line_sets_the_diagonal() {
    let mut image = vec![0u8; 3 * 3 * 4];
    draw_line(&mut image, 3, 3, (0, 0), (2, 2), [1, 2, 3, 4]);
    for y in 0..3usize {
        for x in 0..3usize {
            let i = (y * 3 + x) * 4;
            let expected = if x == y { [1, 2, 3, 4] } else { [0, 0, 0, 0] };
            assert_eq!(image[i..i + 4], expected);
        }
    }
}

#[test]
fn draw_line_skips_pixels_outside_the_image() {
    let mut image = vec![0u8; 2 * 1 * 4];
    draw_line(&mut image, 2, 1, (-1, 0), (3, 0), [9, 9, 9, 9]);
    assert_eq!(image, vec![9u8; 8]);
}

#[test]
fn draw_line_of_one_point() {
    let mut image = vec![0u8; 2 * 2 * 4];
    draw_line(&mut image, 2, 2, (1, 0), (1, 0), [5, 6, 7, 8]);
    assert_eq!(image[4..8], [5, 6, 7, 8]);
    assert_eq!(image.iter().filter(|b| **b != 0).count(), 4);
}

#[test]
fn steep_line_is_connected() {
    let mut image = vec![0u8; 3 * 5 * 4];
    draw_line(&mut image, 3, 5, (0, 0), (1, 4), [1, 1, 1, 1]);
    for y in 0..5usize {
        let row = &image[y * 12..y * 12 + 12];
        assert_eq!(row.chunks(4).filter(|p| *p == [1, 1, 1, 1]).count(), 1);
    }
}

#[test]
fn pen_strokes_are_drawn_into_the_screen() {
    let mut screen = ScreenData { data: vec![0u8; 4 * 4 * 4], width: 4, height: 4 };
    let lines = vec![LineAnnotation { points: vec![(0, 0), (3, 0), (3, 3)], color: [9, 9, 9, 9] }];
    assert!(draw_line_annotations(&mut screen, &lines));
    for y in 0..4usize {
        for x in 0..4usize {
            let i = (y * 4 + x) * 4;
            let on = y == 0 || x == 3;
            assert_eq!(screen.data[i] == 9, on);
        }
    }
}

#[test]
fn pen_strokes_leave_a_short_screen_alone() {
    let mut screen = ScreenData { data: vec![0u8; 10], width: 4, height: 4 };
    let lines = vec![LineAnnotation { points: vec![(0, 0), (1, 1)], color: [9, 9, 9, 9] }];
    assert!(!draw_line_annotations(&mut screen, &lines));
    assert_eq!(screen.data, vec![0u8; 10]);
}

#[test]
fn dimensions_are_read_from_the_decoder_report() {
    let report = "Stream #0:0: Video: hevc (Main), yuv420p(tv), 1920x1080, 25 fps";
    assert_eq!(parse_h265_dimensions(report), Ok((1920, 1080)));
    assert_eq!(parse_h265_dimensions("1280x720 then 640x480"), Ok((1280, 720)));
}

#[test]
fn missing_dimensions_are_reported() {
    assert_eq!(parse_h265_dimensions("no size in this report"), Err(DimensionsError::NotFound));
    assert_eq!(parse_h265_dimensions("99999999999x10"), Err(DimensionsError::InvalidNumber));
}

#[test]
fn dimensions_from_digit_groups() {
    assert_eq!(dimensions_from_captures(Some(("12".to_string(), "34".to_string()))), Ok((12, 34)));
    assert_eq!(dimensions_from_captures(None), Err(DimensionsError::NotFound));
    assert_eq!(
        dimensions_from_captures(Some(("4294967296".to_string(), "1".to_string()))),
        Err(DimensionsError::InvalidNumber)
    );
}

fn video(path: &str, fps: u32) -> VideoConfig {
    VideoConfig { output_path: PathBuf::from(path), fps, temp_dir: PathBuf::from("/tmp") }
}

#[test]
fn config_update_takes_every_setting() {
    let mut config = Config { video: video("a.mkv", DEFAULT_FPS), capture: CaptureConfig::default() };
    let new_config = Config {
        video: video("b.mkv", 30),
        capture: CaptureConfig { selected_monitor: 1, capture_area: Some(CaptureArea::full(10, 10)) },
    };
    config.update(new_config.clone());
    assert_eq!(config, new_config);
    assert_eq!(DEFAULT_FPS, 6);
}

#[test]
fn every_sample_and_every_drop_is_counted() {
    let mut t = TimingMetrics::default();
    let samples: [(u128, bool); 6] = [(40, false), (0, true), (900, false), (15, true), (15, true), (7, false)];
    for (i, (micros, failed)) in samples.iter().enumerate() {
        t.record_sample(*micros, *failed);
        let dropped = samples[..=i].iter().filter(|s| s.1).count() as u64;
        assert_eq!(t.total_frames, i as u64 + 1);
        assert_eq!(t.dropped_frames, dropped);
        assert!(t.dropped_frames <= t.total_frames);
        assert!(t.last_duration <= t.max_duration);
        assert!(t.min_duration <= t.max_duration);
    }
}

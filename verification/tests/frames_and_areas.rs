use rustream::capture::{extract_area, screen_data_from_capture, ScreenArea};
use rustream::common::CaptureArea;
use rustream::screen_capture::bgra_to_rgba;
use rustream::screen_capture::capturer::{
    capture_action, capture_transition, pick_monitor, CaptureAction, CaptureError, CaptureEvent, CaptureState,
};
use rustream::screen_capture::frame::CapturedFrame;

#[test]
fn safeguards_keep_an_area_inside_the_buffer() {
    let area = CaptureArea::new_with_safeguards(10, 20, 100, 50, 1920, 1080);
    assert_eq!(area, CaptureArea { x: 10, y: 20, width: 100, height: 50 });
}

#[test]
fn safeguards_cut_an_area_at_the_buffer_edge() {
    let area = CaptureArea::new_with_safeguards(1900, 1000, 100, 200, 1920, 1080);
    assert_eq!(area, CaptureArea { x: 1900, y: 1000, width: 20, height: 80 });
}

#[test]
fn safeguards_turn_an_origin_past_the_edge_into_the_whole_buffer() {
    let area = CaptureArea::new_with_safeguards(2000, 0, 100, 100, 1920, 1080);
    assert_eq!(area, CaptureArea { x: 0, y: 0, width: 1920, height: 1080 });
}

#[test]
fn safeguards_turn_an_empty_area_into_the_whole_buffer() {
    let area = CaptureArea::new_with_safeguards(5, 5, 0, 10, 640, 480);
    assert_eq!(area, CaptureArea::full(640, 480));
    let area = CaptureArea::new_with_safeguards(5, 5, 10, 0, 640, 480);
    assert_eq!(area, CaptureArea { x: 0, y: 0, width: 640, height: 480 });
}

#[test]
fn safeguarding_twice_changes_nothing() {
    let once = CaptureArea::new_with_safeguards(1900, 1000, 100, 200, 1920, 1080);
    let twice = CaptureArea::new_with_safeguards(once.x, once.y, once.width, once.height, 1920, 1080);
    assert_eq!(once, twice);
}

#[test]
fn full_area_covers_the_buffer() {
    assert_eq!(CaptureArea::full(800, 600), CaptureArea { x: 0, y: 0, width: 800, height: 600 });
}

fn numbered_bytes(n: usize) -> Vec<u8> {
    (0..n).map(|i| i as u8).collect()
}

#[test]
fn extract_area_copies_the_rows_of_the_region() {
    let buffer = numbered_bytes(3 * 3 * 4);
    let area = ScreenArea { x: 1, y: 1, width: 2, height: 2 };
    let out = extract_area(&buffer, 3, &area);
    let mut expected: Vec<u8> = (16..24).collect();
    expected.extend(28..36u8);
    assert_eq!(out, expected);
}

#[test]
fn extract_area_of_an_empty_region_is_empty() {
    let buffer = numbered_bytes(2 * 2 * 4);
    let area = ScreenArea { x: 0, y: 0, width: 0, height: 0 };
    assert!(extract_area(&buffer, 2, &area).is_empty());
}

#[test]
fn screen_data_keeps_the_whole_capture_without_a_region() {
    let buffer = numbered_bytes(2 * 2 * 4);
    let screen = screen_data_from_capture(buffer.clone(), 2, 2, None);
    assert_eq!(screen.data, buffer);
    assert_eq!((screen.width, screen.height), (2, 2));
}

#[test]
fn screen_data_holds_the_region_when_one_is_asked_for() {
    let buffer = numbered_bytes(3 * 2 * 4);
    let area = ScreenArea { x: 2, y: 0, width: 1, height: 2 };
    let screen = screen_data_from_capture(buffer, 3, 2, Some(area));
    assert_eq!(screen.data, vec![8, 9, 10, 11, 20, 21, 22, 23]);
    assert_eq!((screen.width, screen.height), (1, 2));
}

#[test]
fn bgra_to_rgba_swaps_red_and_blue() {
    let mut buffer = vec![1u8, 2, 3, 4, 5, 6, 7, 8];
    let out = bgra_to_rgba(&mut buffer).to_vec();
    assert_eq!(out, vec![3, 2, 1, 4, 7, 6, 5, 8]);
    assert_eq!(buffer, vec![3, 2, 1, 4, 7, 6, 5, 8]);
}

#[test]
fn bgra_to_rgba_twice_gives_back_the_bytes() {
    let start = numbered_bytes(16);
    let mut buffer = start.clone();
    bgra_to_rgba(&mut buffer);
    bgra_to_rgba(&mut buffer);
    assert_eq!(buffer, start);
}

#[test]
fn frame_from_bgra_is_rgba() {
    let frame = CapturedFrame::from_bgra(1, 2, vec![10, 20, 30, 40, 50, 60, 70, 80]);
    assert_eq!((frame.width, frame.height), (1, 2));
    assert_eq!(frame.rgba_data, vec![30, 20, 10, 40, 70, 60, 50, 80]);
}

#[test]
fn frame_from_rgba_vec_keeps_the_bytes() {
    let frame = CapturedFrame::from_rgba_vec(vec![1, 2, 3, 4], 1, 1);
    assert_eq!((frame.width, frame.height), (1, 1));
    assert_eq!(frame.rgba_data, vec![1, 2, 3, 4]);
}

#[test]
fn frame_view_crops_the_image() {
    let frame = CapturedFrame::from_rgba_vec(numbered_bytes(3 * 2 * 4), 3, 2);
    let cropped = frame.view(1, 0, 2, 2).expect("the view lies inside the frame");
    assert_eq!((cropped.width, cropped.height), (2, 2));
    let mut expected: Vec<u8> = (4..12).collect();
    expected.extend(16..24u8);
    assert_eq!(cropped.rgba_data, expected);
}

#[test]
fn grabbed_frame_view_crops_the_image() {
    let frame = rustream::frame_grabber::CapturedFrame::from_bgra(2, 2, numbered_bytes(16));
    assert_eq!(frame.rgba_data[0..4], [2, 1, 0, 3]);
    let cropped = frame.view(1, 1, 1, 1).expect("the view lies inside the frame");
    assert_eq!((cropped.width, cropped.height), (1, 1));
    assert_eq!(cropped.rgba_data, vec![14, 13, 12, 15]);
}

#[test]
fn pick_monitor_without_monitors_fails() {
    let monitors: Vec<u32> = Vec::new();
    assert!(matches!(pick_monitor(monitors, 0), Err(CaptureError::NoMonitors)));
}

#[test]
fn pick_monitor_past_the_last_fails_with_the_index() {
    assert!(matches!(pick_monitor(vec![10u32, 20], 5), Err(CaptureError::InvalidIndex(5))));
}

#[test]
fn pick_monitor_takes_the_indexed_monitor() {
    assert!(matches!(pick_monitor(vec![10u32, 20, 30], 1), Ok(20)));
}

#[test]
fn capture_opens_the_selected_monitor_first() {
    let state = CaptureState::new();
    assert_eq!(capture_action(&state, 1), CaptureAction::Open(1));
    let opened = capture_transition(state, CaptureEvent::Opened { monitor: 1, width: 1920, height: 1080 })
        .expect("an opened capturer keeps the thread going");
    assert_eq!(opened, CaptureState { monitor: Some(1), capturing: true, width: 1920, height: 1080 });
    assert_eq!(capture_action(&opened, 1), CaptureAction::Grab);
    assert_eq!(capture_action(&opened, 0), CaptureAction::Open(0));
}

#[test]
fn capture_reopens_after_a_failure_and_stops_when_it_cannot_open() {
    let opened = CaptureState { monitor: Some(0), capturing: true, width: 800, height: 600 };
    assert_eq!(capture_transition(opened, CaptureEvent::Grabbed), Some(opened));
    assert_eq!(capture_transition(opened, CaptureEvent::NotReady), Some(opened));
    let reset = capture_transition(opened, CaptureEvent::ConnectionReset).unwrap();
    assert!(!reset.capturing);
    assert_eq!(capture_action(&reset, 0), CaptureAction::Open(0));
    assert!(!capture_transition(opened, CaptureEvent::GrabFailed).unwrap().capturing);
    assert_eq!(capture_transition(opened, CaptureEvent::MonitorMissing), None);
    assert_eq!(capture_transition(CaptureState::new(), CaptureEvent::OpenFailed), None);
}

#[test]
fn frame_view_outside_the_frame_is_none() {
    let frame = CapturedFrame::from_rgba_vec(numbered_bytes(3 * 2 * 4), 3, 2);
    assert!(frame.clone().view(2, 0, 2, 1).is_none());
    assert!(frame.clone().view(0, 1, 1, 2).is_none());
    assert!(frame.view(0, 0, 3, 2).is_some());
}

#[test]
fn grabbed_frame_view_outside_the_frame_is_none() {
    let frame = rustream::frame_grabber::CapturedFrame::from_bgra(2, 2, numbered_bytes(16));
    assert!(frame.clone().view(1, 1, 2, 1).is_none());
    assert!(frame.view(u32::MAX, 0, 1, 1).is_none());
}

use wmacro::daemon::{
    dispatch_mouse_btn, fallback_screen_bounds, handle_abs_axis, handle_key_event, handle_rel_axis, handle_request,
    json_i32, split_json_objects, wlr_randr_bounds, RequestOutcome, Sent, TapState, ABS_MT_POSITION_X_CODE,
    ABS_MT_POSITION_Y_CODE, ABS_MT_TRACKING_ID_CODE, BTN_TOUCH_CODE, REL_HWHEEL_CODE, REL_WHEEL_CODE, REL_X_CODE,
};
use wmacro::types::{ClickButton, DaemonRequest, HardwareEventKind, HotkeyEvent, MacroButton};

const MS: u64 = 1_000_000;

#[test]
fn wheel_turns_become_scrolls() {
    assert_eq!(handle_rel_axis(REL_WHEEL_CODE, 1), Some(HardwareEventKind::Scroll { dx: 0, dy: -1 }));
    assert_eq!(handle_rel_axis(REL_HWHEEL_CODE, -2), Some(HardwareEventKind::Scroll { dx: -2, dy: 0 }));
    assert_eq!(handle_rel_axis(REL_X_CODE, 5), Some(HardwareEventKind::MouseMove));
    assert_eq!(handle_rel_axis(0x0b, 5), None);
}

#[test]
fn mouse_buttons_send_hotkeys_and_records() {
    let (hk, kind) = dispatch_mouse_btn(1, 0x110, MacroButton::Left);
    assert_eq!(hk, Some(HotkeyEvent { code: 0x110, pressed: true }));
    assert_eq!(kind, Some(HardwareEventKind::MouseDown(MacroButton::Left)));
    let (hk, kind) = dispatch_mouse_btn(0, 0x111, MacroButton::Right);
    assert_eq!(hk, Some(HotkeyEvent { code: 0x111, pressed: false }));
    assert_eq!(kind, Some(HardwareEventKind::MouseUp(MacroButton::Right)));
    assert_eq!(dispatch_mouse_btn(2, 0x110, MacroButton::Left), (None, None));
}

#[test]
fn keys_send_hotkeys_and_records() {
    let mut ts = TapState::new();
    let (sent, kind) = handle_key_event(30, "KEY_A", 1, 0, &mut ts);
    assert_eq!(sent, vec![Sent::Hotkey(HotkeyEvent { code: 30, pressed: true })]);
    assert_eq!(kind, Some(HardwareEventKind::KeyDown("KEY_A".into(), 30)));
    let (sent, kind) = handle_key_event(30, "KEY_A", 2, 0, &mut ts);
    assert!(sent.is_empty() && kind.is_none(), "auto-repeat is ignored");
}

#[test]
fn short_still_touch_is_a_tap() {
    let mut ts = TapState::new();
    let (sent, _) = handle_key_event(BTN_TOUCH_CODE, "BTN_TOUCH", 1, 0, &mut ts);
    assert!(sent.is_empty());
    handle_abs_axis(ABS_MT_POSITION_X_CODE, 100, &mut ts);
    handle_abs_axis(ABS_MT_POSITION_Y_CODE, 100, &mut ts);
    handle_abs_axis(ABS_MT_POSITION_X_CODE, 105, &mut ts);
    let (sent, kind) = handle_key_event(BTN_TOUCH_CODE, "BTN_TOUCH", 0, 50 * MS, &mut ts);
    assert_eq!(sent.len(), 3);
    assert_eq!(kind, Some(HardwareEventKind::MouseUp(MacroButton::Left)));
    assert_eq!(ts.last_tap_time, Some(50 * MS));
}

#[test]
fn long_or_moving_touch_is_no_tap() {
    let mut ts = TapState::new();
    handle_key_event(BTN_TOUCH_CODE, "BTN_TOUCH", 1, 0, &mut ts);
    handle_abs_axis(ABS_MT_POSITION_X_CODE, 0, &mut ts);
    handle_abs_axis(ABS_MT_POSITION_X_CODE, 300, &mut ts);
    let (sent, kind) = handle_key_event(BTN_TOUCH_CODE, "BTN_TOUCH", 0, 50 * MS, &mut ts);
    assert!(sent.is_empty() && kind.is_none());

    let mut slow = TapState::new();
    handle_key_event(BTN_TOUCH_CODE, "BTN_TOUCH", 1, 0, &mut slow);
    let (sent, kind) = handle_key_event(BTN_TOUCH_CODE, "BTN_TOUCH", 0, 900 * MS, &mut slow);
    assert!(sent.is_empty() && kind.is_none());
}

#[test]
fn tap_then_touch_starts_a_drag() {
    let mut ts = TapState::new();
    handle_key_event(BTN_TOUCH_CODE, "BTN_TOUCH", 1, 0, &mut ts);
    handle_key_event(BTN_TOUCH_CODE, "BTN_TOUCH", 0, 20 * MS, &mut ts);
    let (sent, kind) = handle_key_event(BTN_TOUCH_CODE, "BTN_TOUCH", 1, 100 * MS, &mut ts);
    assert_eq!(sent.len(), 1);
    assert_eq!(kind, Some(HardwareEventKind::MouseDown(MacroButton::Left)));
    assert!(ts.is_dragging);
    let (sent, kind) = handle_abs_axis(ABS_MT_TRACKING_ID_CODE, -1, &mut ts);
    assert_eq!(sent.len(), 1);
    assert_eq!(kind, Some(HardwareEventKind::MouseUp(MacroButton::Left)));
    assert!(!ts.is_dragging);
}

#[test]
fn recording_requests_toggle_the_flag() {
    let mut on = false;
    assert_eq!(handle_request(&DaemonRequest::StartRecording, &mut on), RequestOutcome::RecordingStarted { was_running: false });
    assert!(on);
    assert_eq!(handle_request(&DaemonRequest::StartRecording, &mut on), RequestOutcome::RecordingStarted { was_running: true });
    assert_eq!(handle_request(&DaemonRequest::StopRecording, &mut on), RequestOutcome::RecordingStopped { was_running: true });
    assert!(!on);
    assert_eq!(handle_request(&DaemonRequest::Press { button: ClickButton::Left }, &mut on), RequestOutcome::Forward);
    assert!(!on);
}

#[test]
fn json_objects_split_at_top_level() {
    let parts = split_json_objects("[{\"a\":1},{\"c\":2}]");
    assert_eq!(parts, vec!["[{\"a\":1".to_string(), "\"c\":2}]".to_string()]);
    assert_eq!(split_json_objects("[]"), vec!["[]".to_string()]);
}

#[test]
fn json_numbers_are_read_by_key() {
    assert_eq!(json_i32("{\"x\": -12, \"y\":7}", "x"), Some(-12));
    assert_eq!(json_i32("{\"x\": -12, \"y\":7}", "y"), Some(7));
    assert_eq!(json_i32("{\"x\": -12}", "z"), None);
}

#[test]
fn randr_bounds_cover_enabled_outputs() {
    let json = "[{\"name\":\"A\",\"enabled\":true,\"position\":{\"x\":0,\"y\":0},\"current_mode\":{\"width\":1920,\"height\":1080}},\
{\"name\":\"B\",\"enabled\":true,\"position\":{\"x\":1920,\"y\":0},\"current_mode\":{\"width\":1280,\"height\":1024}}]";
    assert_eq!(wlr_randr_bounds(json), Some((1920, 1080)));
    assert_eq!(wlr_randr_bounds("[]"), None);
    let (w, h) = fallback_screen_bounds();
    assert!(w > 0 && h > 0);
}

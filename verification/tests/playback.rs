use wmacro::dispatch::{dispatch_steps, is_suppressed, BackendStep};
use wmacro::playback::{
    coord_value, event_kind_tag, extract_jitter, extract_position, jitter_from_seed, macro_button_to_click,
    resolve_coord, ClickBackend, HeldState, PlaybackMetrics, PlaybackTimeline,
};
use wmacro::types::{ClickButton, ClickType, Coord, Hotkey, MacroButton, MacroEvent, MousePosition};

/// Records what the player asks of it.
#[derive(Default)]
struct Log {
    calls: Vec<String>,
}

impl ClickBackend for Log {
    fn move_to(&mut self, x: i32, y: i32) -> Result<(), String> {
        self.calls.push(format!("move {x} {y}"));
        Ok(())
    }
    fn press(&mut self, button: &ClickButton) -> Result<(), String> {
        self.calls.push(format!("press {:?}", button));
        Ok(())
    }
    fn release(&mut self, button: &ClickButton) -> Result<(), String> {
        self.calls.push(format!("release {:?}", button));
        Ok(())
    }
    fn scroll(&mut self, dx: i32, dy: i32) -> Result<(), String> {
        self.calls.push(format!("scroll {dx} {dy}"));
        Ok(())
    }
    fn key_down(&mut self, _key: &str, code: u16) -> Result<(), String> {
        self.calls.push(format!("down {code}"));
        Ok(())
    }
    fn key_up(&mut self, _key: &str, code: u16) -> Result<(), String> {
        self.calls.push(format!("up {code}"));
        Ok(())
    }
    fn type_text(&mut self, text: &str) -> Result<(), String> {
        self.calls.push(format!("type {text}"));
        Ok(())
    }
    fn click(
        &mut self,
        _target_x: i32,
        _target_y: i32,
        _current_x: i32,
        _current_y: i32,
        _button: &ClickButton,
        _click_type: &ClickType,
        _hold_duration_ms: u64,
        _move_cursor: bool,
    ) -> Result<(), String> {
        Ok(())
    }
}

fn at(x: i32, y: i32) -> MousePosition {
    MousePosition::Absolute { x: Coord::Const(x), y: Coord::Const(y) }
}

#[test]
fn buttons_map_to_click_buttons() {
    assert_eq!(macro_button_to_click(&MacroButton::Left), ClickButton::Left);
    assert_eq!(macro_button_to_click(&MacroButton::Right), ClickButton::Right);
    assert_eq!(macro_button_to_click(&MacroButton::Middle), ClickButton::Middle);
}

#[test]
fn event_tags_name_the_kind() {
    assert_eq!(event_kind_tag(&MacroEvent::Delay(1)), "Delay");
    assert_eq!(event_kind_tag(&MacroEvent::Scroll { dx: 0, dy: 0 }), "Scroll");
    assert_eq!(
        event_kind_tag(&MacroEvent::Click { position: at(0, 0), button: MacroButton::Left, jitter: 0, hold_time_ms: 0 }),
        "Click"
    );
}

#[test]
fn positions_add_jitter_and_current_is_origin() {
    let e = MacroEvent::MouseDown { position: at(100, 200), button: MacroButton::Left, jitter: 5 };
    assert_eq!(extract_position(&e, (3, -2)), (103, 198));
    let cur = MacroEvent::MouseDown { position: MousePosition::Current, button: MacroButton::Left, jitter: 5 };
    assert_eq!(extract_position(&cur, (3, -2)), (-1, -1));
    assert_eq!(extract_position(&MacroEvent::Scroll { dx: 1, dy: 1 }, (3, -2)), (-1, -1));
    assert_eq!(extract_jitter(&MacroEvent::Scroll { dx: 1, dy: 1 }), (0, 0));
}

#[test]
fn variable_coords_read_their_values() {
    let nums = vec![("px".to_string(), 77i64), ("big".to_string(), 1i64 << 40)];
    assert_eq!(resolve_coord(&Coord::Const(5), &nums), 5);
    assert_eq!(resolve_coord(&Coord::Var("px".into()), &nums), 77);
    assert_eq!(resolve_coord(&Coord::Var("none".into()), &nums), 0);
    assert_eq!(coord_value(&Coord::Const(-9)), -9);
    assert_eq!(coord_value(&Coord::Var("px".into())), 0);
}

#[test]
fn jitter_stays_within_its_bound() {
    for seed in 0..200u64 {
        let (dx, dy) = jitter_from_seed(4, seed.wrapping_mul(0x9e37_79b9_7f4a_7c15));
        assert!((-4..=4).contains(&dx) && (-4..=4).contains(&dy));
    }
    assert_eq!(jitter_from_seed(0, 12345), (0, 0));
}

#[test]
fn click_dispatches_move_press_hold_release() {
    let e = MacroEvent::Click { position: at(10, 20), button: MacroButton::Right, jitter: 0, hold_time_ms: 40 };
    let steps = dispatch_steps(&e, None, None, (1, 1));
    assert_eq!(
        steps,
        vec![
            BackendStep::MoveTo { x: 11, y: 21 },
            BackendStep::Press(ClickButton::Right),
            BackendStep::Sleep(40),
            BackendStep::Release(ClickButton::Right),
        ]
    );
}

#[test]
fn hotkey_codes_are_not_replayed() {
    let rec = Some(Hotkey::plain(59));
    assert!(is_suppressed(59, rec, None));
    assert!(!is_suppressed(60, rec, None));
    let e = MacroEvent::KeyPress { key: "f1".into(), code: 59, hold_time_ms: 10 };
    assert!(dispatch_steps(&e, rec, None, (0, 0)).is_empty());
    let other = MacroEvent::KeyPress { key: "f2".into(), code: 60, hold_time_ms: 10 };
    assert_eq!(dispatch_steps(&other, rec, None, (0, 0)).len(), 3);
}

#[test]
fn held_inputs_are_released() {
    let mut held = HeldState::new();
    held.update(&MacroEvent::MouseDown { position: at(0, 0), button: MacroButton::Left, jitter: 0 });
    held.update(&MacroEvent::KeyDown { key: "a".into(), code: 30 });
    held.update(&MacroEvent::KeyDown { key: "b".into(), code: 48 });
    held.update(&MacroEvent::KeyUp { key: "b".into(), code: 48 });
    let mut log = Log::default();
    held.release_all(&mut log);
    assert_eq!(log.calls, vec!["release Left".to_string(), "up 30".to_string()]);
    assert!(held.buttons.is_empty() && held.keys.is_empty());
    let mut again = Log::default();
    held.release_all(&mut again);
    assert!(again.calls.is_empty());
}

#[test]
fn suspend_and_resume_replay_held_inputs() {
    let mut held = HeldState::new();
    held.update(&MacroEvent::MouseDown { position: at(0, 0), button: MacroButton::Middle, jitter: 0 });
    held.update(&MacroEvent::KeyDown { key: "x".into(), code: 45 });
    let mut log = Log::default();
    held.suspend(&mut log);
    held.resume(&mut log);
    assert_eq!(
        log.calls,
        vec!["release Middle".to_string(), "up 45".to_string(), "press Middle".to_string(), "down 45".to_string()]
    );
}

#[test]
fn metrics_track_slowest_and_averages() {
    let mut m = PlaybackMetrics::new();
    assert!(!m.record("MouseMove", 1, 2, 500));
    assert!(m.record("Click", 3, 4, 2_000_000));
    assert!(!m.record("MouseMove", 5, 6, 1_500));
    let r = m.report();
    assert_eq!(r.total_dispatch, 2_002_000);
    assert_eq!(r.max_dispatch, 2_000_000);
    assert_eq!(r.moves, (2, 1_000));
    assert_eq!(r.downs, (1, 2_000_000));
    assert_eq!(r.others, (0, 0));
    assert_eq!(r.slowest, Some(("Click", 3, 4)));
}

#[test]
fn timeline_accumulates_and_reanchors() {
    let mut tl = PlaybackTimeline::new();
    assert_eq!(tl.ensure_started(1_000), 1_000);
    assert_eq!(tl.ensure_started(9_000), 1_000);
    assert_eq!(tl.add_scheduled(20), 20);
    assert_eq!(tl.add_scheduled(30), 50);
    tl.shift(500);
    assert_eq!(tl.ensure_started(0), 1_500);
    tl.reset();
    assert_eq!(tl.ensure_started(7), 7);
}

#[test]
fn lag_beyond_tolerance_moves_the_origin() {
    let mut tl = PlaybackTimeline::new();
    tl.ensure_started(0);
    tl.reanchor_if_lagging(5_000_000, 0);
    assert_eq!(tl.ensure_started(0), 0, "five milliseconds of lag is absorbed");
    tl.reanchor_if_lagging(60_000_000_000, 1_000);
    assert_eq!(tl.ensure_started(0), 60_000_000_000 - 1_000);
}

#[test]
fn held_inputs_as_steps() {
    let mut held = HeldState::new();
    held.update(&MacroEvent::MouseDown { position: at(0, 0), button: MacroButton::Right, jitter: 0 });
    held.update(&MacroEvent::KeyDown { key: "a".into(), code: 30 });
    assert_eq!(
        held.release_steps(),
        vec![BackendStep::Release(ClickButton::Right), BackendStep::KeyUp { key: String::new(), code: 30 }]
    );
    assert_eq!(
        held.press_steps(),
        vec![BackendStep::Press(ClickButton::Right), BackendStep::KeyDown { key: String::new(), code: 30 }]
    );
    assert!(HeldState::new().release_steps().is_empty());
}

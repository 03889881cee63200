use wmacro::command::{Macro, MacroCommand};
use wmacro::recording::{commit_event, map_hardware_event, record_step, RecorderConfig, TimeTracker};
use wmacro::types::{Coord, HardwareEvent, HardwareEventKind, MacroButton, MacroEvent, MousePosition};

fn config() -> RecorderConfig {
    RecorderConfig {
        is_recording: true,
        is_paused: false,
        session_start: None,
        record_mouse: true,
        record_movements: true,
        record_keyboard: true,
        cursor_x: 0,
        cursor_y: 0,
    }
}

fn ev(ns: u64, kind: HardwareEventKind) -> HardwareEvent {
    HardwareEvent { hardware_time_ns: ns, kind }
}

#[test]
fn first_event_starts_the_clock() {
    let mut t = TimeTracker::new();
    assert_eq!(t.process_time(5_000_000, None, false), Some(0));
    assert_eq!(t.process_time(7_000_000, None, false), Some(2_000));
    assert_eq!(t.process_time(7_500_000, None, false), Some(500));
}

#[test]
fn paused_time_is_left_out() {
    let mut t = TimeTracker::new();
    assert_eq!(t.process_time(0, None, false), Some(0));
    assert_eq!(t.process_time(1_000_000, None, true), None);
    assert_eq!(t.process_time(5_000_000, None, true), None);
    assert_eq!(t.process_time(6_000_000, None, false), Some(1_000));
}

#[test]
fn events_before_the_session_are_dropped() {
    let mut t = TimeTracker::new();
    assert_eq!(t.process_time(10, Some(100), false), None);
    assert_eq!(t.process_time(2_000, Some(100), false), Some(0));
}

#[test]
fn moves_are_recorded_once_per_position() {
    let cfg = config();
    let mut last = None;
    let e = ev(0, HardwareEventKind::MouseMove);
    let first = map_hardware_event(&e, &cfg, &mut last, (3, 4));
    assert_eq!(first, Some(MacroEvent::MouseMove { x: Coord::Const(3), y: Coord::Const(4) }));
    assert_eq!(last, Some((3, 4)));
    assert_eq!(map_hardware_event(&e, &cfg, &mut last, (3, 4)), None);
}

#[test]
fn buttons_are_recorded_at_the_cursor() {
    let cfg = config();
    let mut last = None;
    let e = ev(0, HardwareEventKind::MouseDown(MacroButton::Right));
    let r = map_hardware_event(&e, &cfg, &mut last, (10, 20));
    assert_eq!(
        r,
        Some(MacroEvent::MouseDown {
            position: MousePosition::Absolute { x: Coord::Const(10), y: Coord::Const(20) },
            button: MacroButton::Right,
            jitter: 0,
        })
    );
    assert_eq!(last, Some((10, 20)));
}

#[test]
fn disabled_sources_are_ignored() {
    let mut cfg = config();
    cfg.record_keyboard = false;
    cfg.record_mouse = false;
    let mut last = None;
    assert_eq!(map_hardware_event(&ev(0, HardwareEventKind::KeyDown("a".into(), 30)), &cfg, &mut last, (0, 0)), None);
    assert_eq!(map_hardware_event(&ev(0, HardwareEventKind::Scroll { dx: 0, dy: 1 }), &cfg, &mut last, (0, 0)), None);
    assert_eq!(last, None);
}

#[test]
fn record_step_carries_skipped_delay_forward() {
    let mut cfg = config();
    cfg.record_movements = false;
    let mut t = TimeTracker::new();
    assert!(record_step(&mut t, &ev(0, HardwareEventKind::MouseMove), &cfg, (1, 1)).is_none());
    assert!(record_step(&mut t, &ev(3_000_000, HardwareEventKind::MouseMove), &cfg, (2, 2)).is_none());
    let r = record_step(&mut t, &ev(5_000_000, HardwareEventKind::KeyDown("k".into(), 37)), &cfg, (2, 2));
    assert_eq!(r, Some((5_000, MacroEvent::KeyDown { key: "k".into(), code: 37 })));
}

#[test]
fn commit_adds_delay_then_event() {
    let mut m = Macro::new("rec".into());
    assert_eq!(commit_event(&mut m, 0, MacroEvent::Scroll { dx: 1, dy: 0 }), 1);
    assert_eq!(commit_event(&mut m, 250, MacroEvent::Scroll { dx: 0, dy: 1 }), 2);
    assert_eq!(
        m.commands,
        vec![
            MacroCommand::Action(MacroEvent::Scroll { dx: 1, dy: 0 }),
            MacroCommand::Action(MacroEvent::Delay(250)),
            MacroCommand::Action(MacroEvent::Scroll { dx: 0, dy: 1 }),
        ]
    );
}

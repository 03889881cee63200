use wmacro::types::{ClickButton, ClickType};
use wmacro::uinput::{click_steps, key_steps, move_steps, scroll_steps, InputStep};
use wmacro::cursor::{movecursor_command, parse_cursorpos};
use wmacro::bounds::{drm_modes_bounds, split_at_char, split_words, widest_mode, xrandr_bounds};

#[test]
fn xrandr_current_size() {
    let text = "Screen 0: minimum 8 x 8, current 2560 x 1440, maximum 32767 x 32767\nDP-1 connected primary 2560x1440+0+0\n";
    assert_eq!(xrandr_bounds(text), Some((2560, 1440)));
}

#[test]
fn xrandr_skips_lines_without_current() {
    let text = "something currently odd\nScreen 0: current 1920 x 1080\n";
    assert_eq!(xrandr_bounds(text), Some((1920, 1080)));
    assert_eq!(xrandr_bounds("no size here\n"), None);
    assert_eq!(xrandr_bounds(""), None);
}

#[test]
fn xrandr_stops_at_unreadable_numbers() {
    assert_eq!(xrandr_bounds("current big x 1080\nScreen 0: current 1920 x 1080\n"), None);
    assert_eq!(xrandr_bounds("too short: current 1920 x\nScreen 0: current 800 x 600,\n"), Some((800, 600)));
}

#[test]
fn drm_modes() {
    assert_eq!(widest_mode("1920x1080\n1280x720\n3840x2160\n"), (3840, 2160));
    assert_eq!(widest_mode("  800x600  \ngarbage\n"), (800, 600));
    assert_eq!(widest_mode(""), (0, 0));
    let files = vec!["1920x1080\n".to_string(), String::new(), "2560x1440\n1024x768\n".to_string()];
    assert_eq!(drm_modes_bounds(&files), Some((2560, 1440)));
    assert_eq!(drm_modes_bounds(&vec!["x\n".to_string()]), None);
    assert_eq!(drm_modes_bounds(&Vec::new()), None);
}

#[test]
fn lines_and_words() {
    let s: Vec<char> = "a\nbc\n".chars().collect();
    let parts: Vec<String> = split_at_char(&s, '\n').iter().map(|p| p.iter().collect()).collect();
    assert_eq!(parts, vec!["a", "bc", ""]);
    let s: Vec<char> = "  one two\tthree  ".chars().collect();
    let ws: Vec<String> = split_words(&s).iter().map(|p| p.iter().collect()).collect();
    assert_eq!(ws, vec!["one", "two", "three"]);
}

#[test]
fn cursor_positions() {
    assert_eq!(parse_cursorpos("1280, 720\n"), Some((1280, 720)));
    assert_eq!(parse_cursorpos("  -5,12 "), Some((-5, 12)));
    assert_eq!(parse_cursorpos("1280 720"), None);
    assert_eq!(parse_cursorpos("1, 2, 3"), None);
    assert_eq!(parse_cursorpos(""), None);
    assert_eq!(movecursor_command(10, -20), "dispatch movecursor 10 -20");
}

#[test]
fn device_events_for_moves_keys_scrolls_and_clicks() {
    let syn = InputStep::Event { kind: 0, code: 0, value: 0 };
    assert_eq!(
        move_steps(100, 200),
        vec![
            InputStep::Event { kind: 3, code: 0, value: 100 },
            InputStep::Event { kind: 3, code: 1, value: 200 },
            syn,
            InputStep::Event { kind: 2, code: 0, value: 1 },
            syn,
            InputStep::Event { kind: 2, code: 0, value: -1 },
            syn,
        ]
    );
    assert_eq!(key_steps(30, true), vec![InputStep::Event { kind: 1, code: 30, value: 1 }, syn]);
    assert_eq!(key_steps(30, false), vec![InputStep::Event { kind: 1, code: 30, value: 0 }, syn]);
    assert!(key_steps(0, true).is_empty());
    assert_eq!(scroll_steps(0, 0), vec![]);
    assert_eq!(scroll_steps(0, 2), vec![InputStep::Event { kind: 2, code: 8, value: -2 }, syn, syn]);
    assert_eq!(scroll_steps(-1, 0), vec![InputStep::Event { kind: 2, code: 6, value: -1 }, syn]);
    let click = click_steps(5, 6, ClickButton::Right, ClickType::Double, 0, false);
    assert_eq!(
        click,
        vec![
            InputStep::Event { kind: 1, code: 0x111, value: 1 },
            syn,
            InputStep::Event { kind: 1, code: 0x111, value: 0 },
            syn,
            InputStep::Sleep { ms: 40 },
            InputStep::Event { kind: 1, code: 0x111, value: 1 },
            syn,
            InputStep::Event { kind: 1, code: 0x111, value: 0 },
            syn,
        ]
    );
    let held = click_steps(5, 6, ClickButton::Left, ClickType::Single, 30, true);
    assert_eq!(held.len(), 7 + 1 + 5);
    assert_eq!(held[7], InputStep::Sleep { ms: 10 });
    assert_eq!(held[10], InputStep::Sleep { ms: 30 });
    assert_eq!(held[8], InputStep::Event { kind: 1, code: 0x110, value: 1 });
}

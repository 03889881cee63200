use wmacro::command::{Macro, MacroCommand};
use wmacro::reader::{deserialize, script_readable};
use wmacro::types::{CompareOp, Coord, MacroButton, MacroEvent, MousePosition, Operand, Value};
use wmacro::values::strip_quotes;
use wmacro::writer::{escape, format_coord, format_operand, serialize};

fn demo_macro() -> Macro {
    let mut m = Macro::new("demo".to_string());
    m.commands = vec![
        MacroCommand::Action(MacroEvent::Click {
            position: MousePosition::Absolute { x: Coord::Const(10), y: Coord::Var("py".into()) },
            button: MacroButton::Left,
            jitter: 3,
            hold_time_ms: 50,
        }),
        MacroCommand::Action(MacroEvent::Delay(1500)),
        MacroCommand::Action(MacroEvent::KeyPress { key: "a".into(), code: 30, hold_time_ms: 20 }),
    ];
    m
}

#[test]
fn serialize_writes_header_and_lines() {
    let s = serialize(&demo_macro());
    assert!(s.starts_with("# wmacro script\nversion 8\nname \"demo\"\n\n"), "{s}");
    assert!(s.contains("Click x=10 y=$py btn=Left jitter=3 hold=50\n"), "{s}");
    assert!(s.contains("Delay us=1500\n"), "{s}");
    assert!(s.contains("KeyPress key=\"a\" code=30 hold_time_ms=20\n"), "{s}");
}

#[test]
fn serialized_macro_reads_back() {
    let m = demo_macro();
    let s = serialize(&m);
    assert!(script_readable(&s));
    let back = deserialize(&s).expect("deserialize");
    assert_eq!(back.name, m.name);
    assert_eq!(back.version, 8);
    assert_eq!(back.commands, m.commands);
}

#[test]
fn every_command_reads_back() {
    let mut m = Macro::new("all kinds".to_string());
    m.commands = vec![
        MacroCommand::Action(MacroEvent::MouseMove { x: Coord::Const(-5), y: Coord::Const(7) }),
        MacroCommand::Action(MacroEvent::MouseDown {
            position: MousePosition::Current,
            button: MacroButton::Right,
            jitter: 0,
        }),
        MacroCommand::Action(MacroEvent::MouseUp {
            position: MousePosition::Absolute { x: Coord::Var("a".into()), y: Coord::Const(1) },
            button: MacroButton::Middle,
            jitter: 2,
        }),
        MacroCommand::Action(MacroEvent::Scroll { dx: -1, dy: 3 }),
        MacroCommand::Action(MacroEvent::KeyDown { key: "q\"uote".into(), code: 16 }),
        MacroCommand::Action(MacroEvent::KeyUp { key: "q".into(), code: 16 }),
        MacroCommand::IfPixelColor { x: Coord::Const(1), y: Coord::Var("y".into()), r: 255, g: 0, b: 16, tolerance: 5 },
        MacroCommand::IfImageFound {
            target_image_path: "/tmp/a b.png".into(),
            similarity_threshold: "0.85".into(),
            move_cursor_if_found: true,
            trigger_if_not_found: false,
            region: Some((1, 2, 30, 40)),
            store_x: Some("fx".into()),
            store_y: None,
        },
        MacroCommand::IfColorFound {
            region: None,
            r: 1,
            g: 2,
            b: 3,
            tolerance: 10,
            min_width: 4,
            min_height: 5,
            move_cursor_if_found: false,
            store_x: None,
            store_y: Some("cy".into()),
            store_w: Some("cw".into()),
            store_h: None,
        },
        MacroCommand::Else,
        MacroCommand::EndIf,
        MacroCommand::Loop { count: Operand::Var("n".into()) },
        MacroCommand::EndLoop,
        MacroCommand::PlayMacro("/tmp/other.wmr".into()),
        MacroCommand::Label("top".into()),
        MacroCommand::Goto("top".into()),
        MacroCommand::TypeText("hello $name".into()),
        MacroCommand::OpenFile { path: "/usr/bin/env".into(), args: "a \"b\"".into(), run_as_admin: true },
        MacroCommand::SetVariable { target: "t".into(), value: Operand::Literal(Value::Text("x y".into())) },
        MacroCommand::Calculate { target: "n".into(), expression: "$n + 1".into() },
        MacroCommand::IfCompare {
            left: Operand::Var("n".into()),
            op: CompareOp::Ge,
            right: Operand::Literal(Value::Number(-3)),
        },
        MacroCommand::Delay { duration_ms: Operand::Literal(Value::Number(250)) },
        MacroCommand::SetClipboard { text: Operand::Literal(Value::Text("clip".into())) },
        MacroCommand::GetClipboard { target: "c".into() },
        MacroCommand::Comment("note".into()),
    ];
    let s = serialize(&m);
    let back = deserialize(&s).expect("deserialize");
    assert_eq!(back.commands, m.commands, "{s}");
    assert_eq!(back.name, m.name);
}

#[test]
fn header_defaults_when_missing() {
    let back = deserialize("Delay us=5\n").expect("deserialize");
    assert_eq!(back.name, "untitled");
    assert_eq!(back.version, 3);
    assert_eq!(back.commands, vec![MacroCommand::Action(MacroEvent::Delay(5))]);
}

#[test]
fn comments_and_blank_lines_are_skipped() {
    let back = deserialize("# a comment\n\n   \nDelay us=1\n").expect("deserialize");
    assert_eq!(back.commands.len(), 1);
}

#[test]
fn unknown_commands_are_skipped() {
    assert!(script_readable("Frobnicate a=1\nDelay us=1\n"));
    let back = deserialize("Frobnicate a=1\nDelay us=1\n").expect("deserialize");
    assert_eq!(back.commands, vec![MacroCommand::Action(MacroEvent::Delay(1))]);
}

#[test]
fn escape_doubles_quotes() {
    assert_eq!(escape("a\"b"), "a\"\"b");
    assert_eq!(escape("plain"), "plain");
}

#[test]
fn operands_and_coords_format() {
    assert_eq!(format_operand(&Operand::Var("v".into())), "$v");
    assert_eq!(format_operand(&Operand::Literal(Value::Number(-12))), "-12");
    assert_eq!(format_operand(&Operand::Literal(Value::Text("say \"hi\"".into()))), "\"say \"\"hi\"\"\"");
    assert_eq!(format_coord(&Coord::Const(42)), "42");
    assert_eq!(format_coord(&Coord::Var("x".into())), "$x");
}

#[test]
fn strip_quotes_handles_both_quote_kinds() {
    assert_eq!(strip_quotes("\"abc\""), Some("abc".to_string()));
    assert_eq!(strip_quotes("'a''b'"), Some("a'b".to_string()));
    assert_eq!(strip_quotes("\"a\"\"b\""), Some("a\"b".to_string()));
    assert_eq!(strip_quotes("abc"), None);
    assert_eq!(strip_quotes("\"abc'"), None);
    assert_eq!(strip_quotes("\""), None);
}

#[test]
fn total_duration_sums_recorded_delays() {
    let m = demo_macro();
    assert_eq!(m.total_duration_us(), 1500);
    assert_eq!(m.total_duration_ms(), 1);
}

#[test]
fn quoting_with_doubling_reads_back() {
    for t in ["", "plain", "say \"hi\"", "it's", "\"\"", "''"] {
        for q in ['"', '\''] {
            let doubled: String = t.chars().flat_map(|c| if c == q { vec![c, c] } else { vec![c] }).collect();
            let quoted = format!("{q}{doubled}{q}");
            assert_eq!(strip_quotes(&quoted), Some(t.to_string()));
        }
    }
}

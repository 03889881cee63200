use wmacro::command::MacroCommand;
use wmacro::flow::{execute_else, execute_goto, ExecFrame, FlowControl};
use wmacro::player::{advance, process_command, CommandEffect};
use wmacro::types::{CompareOp, Coord, Operand, Value};

/// Plays `commands` to the end and returns the texts that `TypeText` would type.
fn run_commands(commands: Vec<MacroCommand>) -> Vec<String> {
    let mut frame = ExecFrame::new(commands);
    let nums: Vec<(String, i64)> = Vec::new();
    let mut seen = Vec::new();
    let mut steps = 0;
    while frame.idx < frame.commands.len() {
        let cmd = frame.commands[frame.idx].clone();
        let (flow, effect) = process_command(&cmd, &mut frame, &nums, 1);
        if let CommandEffect::TypeText(t) = effect {
            seen.push(t);
        }
        match flow {
            FlowControl::Continue | FlowControl::Jump => advance(&mut frame, flow),
            FlowControl::BreakFrame | FlowControl::Stop => break,
        }
        steps += 1;
        assert!(steps < 200, "runaway loop in test commands");
    }
    seen
}

/// regression: a `Loop` at index 0 used to underflow `start_idx - 1`.
#[test]
fn end_loop_at_index_zero_iterates_full_count() {
    let seen = run_commands(vec![
        MacroCommand::Loop { count: Operand::Literal(Value::Number(3)) },
        MacroCommand::TypeText("tick".into()),
        MacroCommand::EndLoop,
        MacroCommand::TypeText("done".into()),
    ]);
    assert_eq!(seen, vec!["tick", "tick", "tick", "done"]);
}

#[test]
fn end_loop_keeps_working_when_loop_not_at_index_zero() {
    let seen = run_commands(vec![
        MacroCommand::TypeText("pre".into()),
        MacroCommand::Loop { count: Operand::Literal(Value::Number(2)) },
        MacroCommand::TypeText("tick".into()),
        MacroCommand::EndLoop,
    ]);
    assert_eq!(seen, vec!["pre", "tick", "tick"]);
}

/// regression: `Goto` to a label at index 0 used to underflow `target_idx - 1`.
#[test]
fn goto_to_label_at_index_zero_lands_on_the_label() {
    let mut frame = ExecFrame::new(vec![
        MacroCommand::Label("top".into()),
        MacroCommand::TypeText("body".into()),
        MacroCommand::Goto("top".into()),
    ]);

    frame.idx = 2;
    let flow = execute_goto("top", &mut frame);
    assert!(matches!(flow, FlowControl::Jump));
    assert_eq!(frame.idx, 0, "idx must point at the label itself");
}

#[test]
fn goto_to_mid_macro_label_lands_on_the_label() {
    let mut frame = ExecFrame::new(vec![
        MacroCommand::TypeText("a".into()),
        MacroCommand::Label("mid".into()),
        MacroCommand::TypeText("b".into()),
        MacroCommand::Goto("mid".into()),
    ]);

    frame.idx = 3;
    let flow = execute_goto("mid", &mut frame);
    assert!(matches!(flow, FlowControl::Jump));
    assert_eq!(frame.idx, 1, "idx must point at the label itself");
}

#[test]
fn goto_to_missing_label_warns_and_continues_in_place() {
    let mut frame = ExecFrame::new(vec![
        MacroCommand::TypeText("a".into()),
        MacroCommand::Goto("nope".into()),
    ]);

    frame.idx = 1;
    let flow = execute_goto("nope", &mut frame);
    assert!(matches!(flow, FlowControl::Continue));
    assert_eq!(frame.idx, 1, "a missing target must not move the cursor");
}

#[test]
fn loop_count_from_a_variable() {
    let mut frame = ExecFrame::new(vec![
        MacroCommand::Loop { count: Operand::Var("n".into()) },
        MacroCommand::TypeText("tick".into()),
        MacroCommand::EndLoop,
    ]);
    let nums = vec![("n".to_string(), 2i64)];
    let mut ticks = 0;
    let mut steps = 0;
    while frame.idx < frame.commands.len() {
        let cmd = frame.commands[frame.idx].clone();
        let (flow, effect) = process_command(&cmd, &mut frame, &nums, 1);
        if matches!(effect, CommandEffect::TypeText(_)) {
            ticks += 1;
        }
        advance(&mut frame, flow);
        steps += 1;
        assert!(steps < 50);
    }
    assert_eq!(ticks, 2);
}

#[test]
fn loop_of_zero_skips_its_body() {
    let seen = run_commands(vec![
        MacroCommand::Loop { count: Operand::Literal(Value::Number(0)) },
        MacroCommand::TypeText("never".into()),
        MacroCommand::EndLoop,
        MacroCommand::TypeText("after".into()),
    ]);
    assert_eq!(seen, vec!["after"]);
}

#[test]
fn negative_loop_count_skips_its_body() {
    let seen = run_commands(vec![
        MacroCommand::Loop { count: Operand::Literal(Value::Text("-4".into())) },
        MacroCommand::TypeText("never".into()),
        MacroCommand::EndLoop,
        MacroCommand::TypeText("after".into()),
    ]);
    assert_eq!(seen, vec!["after"]);
}

#[test]
fn nested_loops_multiply() {
    let seen = run_commands(vec![
        MacroCommand::Loop { count: Operand::Literal(Value::Number(2)) },
        MacroCommand::Loop { count: Operand::Literal(Value::Number(3)) },
        MacroCommand::TypeText("x".into()),
        MacroCommand::EndLoop,
        MacroCommand::EndLoop,
    ]);
    assert_eq!(seen.len(), 6);
}

#[test]
fn goto_uses_the_last_label_of_a_name() {
    let mut frame = ExecFrame::new(vec![
        MacroCommand::Label("x".into()),
        MacroCommand::Label("x".into()),
        MacroCommand::Goto("x".into()),
    ]);
    frame.idx = 2;
    assert!(matches!(execute_goto("x", &mut frame), FlowControl::Jump));
    assert_eq!(frame.idx, 1);
}

#[test]
fn else_skips_to_matching_endif() {
    let mut frame = ExecFrame::new(vec![
        MacroCommand::Else,
        MacroCommand::IfPixelColor { x: Coord::Const(0), y: Coord::Const(0), r: 0, g: 0, b: 0, tolerance: 0 },
        MacroCommand::EndIf,
        MacroCommand::EndIf,
        MacroCommand::TypeText("after".into()),
    ]);
    let flow = execute_else(&mut frame);
    assert!(matches!(flow, FlowControl::Continue));
    assert_eq!(frame.idx, 3);
}

#[test]
fn open_file_runs_only_on_the_first_pass() {
    let cmd = MacroCommand::OpenFile { path: "/bin/true".into(), args: String::new(), run_as_admin: false };
    let mut frame = ExecFrame::new(vec![cmd.clone()]);
    let nums: Vec<(String, i64)> = Vec::new();
    let (_, first) = process_command(&cmd, &mut frame, &nums, 1);
    assert!(matches!(first, CommandEffect::OpenFile { .. }));
    let (_, second) = process_command(&cmd, &mut frame, &nums, 2);
    assert!(matches!(second, CommandEffect::NoEffect));
}

#[test]
fn delay_is_asked_in_microseconds() {
    let cmd = MacroCommand::Delay { duration_ms: Operand::Literal(Value::Number(250)) };
    let mut frame = ExecFrame::new(vec![cmd.clone()]);
    let (flow, effect) = process_command(&cmd, &mut frame, &Vec::new(), 1);
    assert!(matches!(flow, FlowControl::Continue));
    assert!(matches!(effect, CommandEffect::Wait(250_000)));
}

#[test]
fn false_if_skips_nested_compare_blocks() {
    let c = MacroCommand::IfCompare {
        left: Operand::Literal(Value::Number(0)),
        op: CompareOp::Eq,
        right: Operand::Literal(Value::Number(1)),
    };
    let mut frame = ExecFrame::new(vec![
        c.clone(),
        c,
        MacroCommand::Else,
        MacroCommand::EndIf,
        MacroCommand::Else,
        MacroCommand::TypeText("b".into()),
        MacroCommand::EndIf,
    ]);
    frame.skip_to_else_or_endif();
    assert_eq!(frame.idx, 4);
}

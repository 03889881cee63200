use std::cmp::Ordering;
use wmacro::command::{Macro, MacroCommand};
use wmacro::flow::{execute_if_compare, ExecFrame, FlowControl};
use wmacro::reader::deserialize;
use wmacro::types::{CompareOp, Operand, Value};
use wmacro::values::{compare_values, interpolate_variables, resolve_num, NumericOrder};
use wmacro::writer::serialize;

fn num(n: i64) -> Value {
    Value::Number(n)
}

fn text(s: &str) -> Value {
    Value::Text(s.to_string())
}

/// The value as a decimal number, as the player reads it.
fn as_f64(v: &Value) -> Option<f64> {
    match v {
        Value::Number(n) => Some(*n as f64),
        Value::Text(s) => s.trim().parse().ok(),
    }
}

fn numeric_order(a: &Value, b: &Value) -> NumericOrder {
    match (as_f64(a), as_f64(b)) {
        (Some(x), Some(y)) => match x.partial_cmp(&y) {
            Some(Ordering::Less) => NumericOrder::Less,
            Some(Ordering::Equal) => NumericOrder::Equal,
            Some(Ordering::Greater) => NumericOrder::Greater,
            None => NumericOrder::Unordered,
        },
        _ => NumericOrder::NotNumbers,
    }
}

fn cmp(left: &Value, op: CompareOp, right: &Value) -> bool {
    compare_values(&left.as_text(), op, &right.as_text(), numeric_order(left, right))
}

fn vars_text(vars: &[(&str, Value)]) -> Vec<(String, String)> {
    vars.iter().map(|(k, v)| (k.to_string(), v.as_text())).collect()
}

fn resolve(op: &Operand, vars: &[(String, Value)]) -> Value {
    match op {
        Operand::Literal(v) => v.clone(),
        Operand::Var(name) => match vars.iter().rev().find(|(k, _)| k == name) {
            Some((_, v)) => v.clone(),
            None => Value::Number(0),
        },
    }
}

#[test]
fn compare_eq_ne_on_text_forms() {
    assert!(cmp(&num(5), CompareOp::Eq, &num(5)));
    assert!(cmp(&num(5), CompareOp::Eq, &text("5")));
    assert!(cmp(&text("hello"), CompareOp::Eq, &text("hello")));
    assert!(!cmp(&text("hello"), CompareOp::Eq, &text("world")));
    assert!(cmp(&text("hello"), CompareOp::Ne, &text("world")));
}

#[test]
fn ordering_is_numeric_when_both_sides_are_numbers() {
    assert!(cmp(&num(2), CompareOp::Lt, &num(10)));
    assert!(cmp(&text("2"), CompareOp::Lt, &num(10)));
    assert!(cmp(&num(10), CompareOp::Gt, &text("2")));
    assert!(cmp(&num(5), CompareOp::Le, &num(5)));
}

#[test]
fn ordering_is_lexicographic_when_text_is_involved() {
    assert!(cmp(&text("abc"), CompareOp::Lt, &text("abd")));
    assert!(!cmp(&text("10"), CompareOp::Lt, &text("2")));
    assert!(cmp(&text("nope"), CompareOp::Gt, &num(2)));
}

#[test]
fn contains_checks_text_form() {
    assert!(cmp(&text("Loading... done"), CompareOp::Contains, &text("done")));
    assert!(!cmp(&text("done"), CompareOp::Contains, &text("Loading")));
    assert!(cmp(&num(12345), CompareOp::Contains, &num(234)));
}

#[test]
fn unordered_numbers_compare_false() {
    assert!(!compare_values("NaN", CompareOp::Lt, "1", NumericOrder::Unordered));
    assert!(!compare_values("NaN", CompareOp::Ge, "1", NumericOrder::Unordered));
    assert!(compare_values("NaN", CompareOp::Ne, "1", NumericOrder::Unordered));
}

#[test]
fn interpolate_numbers_and_text() {
    let vars = vars_text(&[("n", num(42)), ("name", text("wmacro"))]);
    assert_eq!(interpolate_variables("n=$n name=$name", &vars), "n=42 name=wmacro");
    assert_eq!(interpolate_variables("no vars here", &vars), "no vars here");
}

#[test]
fn interpolate_escape_and_unknown_names() {
    let vars = vars_text(&[("a", num(1))]);
    assert_eq!(interpolate_variables("$$a", &vars), "$a");
    assert_eq!(interpolate_variables("$a $$ $missing", &vars), "1 $ $missing");
    assert_eq!(interpolate_variables("$", &vars), "$");
}

#[test]
fn interpolate_names_stop_at_punctuation() {
    let vars = vars_text(&[("x_1", num(-7))]);
    assert_eq!(interpolate_variables("[$x_1]", &vars), "[-7]");
    assert_eq!(interpolate_variables("$x_1.5", &vars), "-7.5");
}

#[test]
fn resolve_num_coerces_text() {
    let vars: Vec<(String, i64)> = Vec::new();
    let number = Operand::Literal(Value::Number(5));
    let text_num = Operand::Literal(Value::Text("500".to_string()));
    assert_eq!(resolve_num(&number, &vars), 5);
    assert_eq!(resolve_num(&text_num, &vars), 500);
}

#[test]
fn resolve_num_reads_missing_or_unparsable_as_zero() {
    let vars = vec![("a".to_string(), 9i64)];
    assert_eq!(resolve_num(&Operand::Var("a".into()), &vars), 9);
    assert_eq!(resolve_num(&Operand::Var("b".into()), &vars), 0);
    assert_eq!(resolve_num(&Operand::Literal(Value::Text("abc".into())), &vars), 0);
    assert_eq!(resolve_num(&Operand::Literal(Value::Text("  12 ".into())), &vars), 12);
}

/// Runs the `IfCompare` command `cmd` against `frame` with `vars` and returns the flow.
fn run_if_compare(cmd: &MacroCommand, frame: &mut ExecFrame, vars: &[(String, Value)]) -> FlowControl {
    match cmd {
        MacroCommand::IfCompare { left, op, right } => {
            let a = resolve(left, vars);
            let b = resolve(right, vars);
            let holds = cmp(&a, *op, &b);
            execute_if_compare(holds, frame)
        }
        other => panic!("expected IfCompare, got {:?}", other),
    }
}

#[test]
fn contains_detects_substring_through_full_script_path() {
    let mut macro_def = Macro::new("repro".to_string());
    macro_def.commands = vec![
        MacroCommand::SetVariable {
            target: "var".into(),
            value: Operand::Literal(Value::Text("lol lol point".into())),
        },
        MacroCommand::IfCompare {
            left: Operand::Var("var".into()),
            op: CompareOp::Contains,
            right: Operand::Literal(Value::Text("point".into())),
        },
        MacroCommand::EndIf,
    ];
    let script = serialize(&macro_def);
    let parsed = deserialize(&script).expect("deserialize");

    let mut vars: Vec<(String, Value)> = Vec::new();
    match &parsed.commands[0] {
        MacroCommand::SetVariable { target, value } => {
            let v = resolve(value, &vars);
            vars.push((target.clone(), v));
        }
        other => panic!("expected SetVariable, got {:?}", other),
    }
    let mut frame = ExecFrame::new(parsed.commands);
    let idx = frame.idx;
    let cmd = frame.commands[1].clone();
    let flow = run_if_compare(&cmd, &mut frame, &vars);
    assert!(matches!(flow, FlowControl::Continue));
    assert_eq!(frame.idx, idx, "contains should fall through to EndIf without skipping");
}

#[test]
fn contains_accepts_single_quoted_literals() {
    let script = "\
# wmacro script
version 6
name \"repro\"

SetVariable target=\"var\" value='lol lol point'
IfCompare left=$var op='contains' right='point'
EndIf
";
    let parsed = deserialize(script).expect("deserialize");
    assert_eq!(
        parsed.commands[0],
        MacroCommand::SetVariable {
            target: "var".into(),
            value: Operand::Literal(Value::Text("lol lol point".into())),
        }
    );
    assert_eq!(
        parsed.commands[1],
        MacroCommand::IfCompare {
            left: Operand::Var("var".into()),
            op: CompareOp::Contains,
            right: Operand::Literal(Value::Text("point".into())),
        }
    );

    let mut vars: Vec<(String, Value)> = Vec::new();
    match &parsed.commands[0] {
        MacroCommand::SetVariable { target, value } => {
            let v = resolve(value, &vars);
            vars.push((target.clone(), v));
        }
        other => panic!("expected SetVariable, got {:?}", other),
    }
    let mut frame = ExecFrame::new(parsed.commands);
    let idx = frame.idx;
    let cmd = frame.commands[1].clone();
    let flow = run_if_compare(&cmd, &mut frame, &vars);
    assert!(matches!(flow, FlowControl::Continue));
    assert_eq!(frame.idx, idx, "contains must match through the full path");
}

#[test]
fn false_condition_skips_to_else() {
    let mut frame = ExecFrame::new(vec![
        MacroCommand::IfCompare {
            left: Operand::Literal(Value::Number(1)),
            op: CompareOp::Gt,
            right: Operand::Literal(Value::Number(2)),
        },
        MacroCommand::TypeText("then".into()),
        MacroCommand::Else,
        MacroCommand::TypeText("else".into()),
        MacroCommand::EndIf,
    ]);
    let cmd = frame.commands[0].clone();
    let flow = run_if_compare(&cmd, &mut frame, &[]);
    assert!(matches!(flow, FlowControl::Continue));
    assert_eq!(frame.idx, 2);
}

#[test]
fn doubled_dollar_escapes_without_variables() {
    let none: Vec<(String, String)> = Vec::new();
    assert_eq!(interpolate_variables("cost: $$5", &none), "cost: $5");
    assert_eq!(interpolate_variables("$name stays", &none), "$name stays");
}

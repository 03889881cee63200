//! What playing one recorded event does to the input backend, and how the
//! screen conditions move the cursor of a frame.
use vstd::prelude::*;
use crate::types::{ClickButton, Hotkey, MacroEvent, MacroEventV, MousePosition, MousePositionV};
use crate::playback::{
    spec_click_button, macro_button_to_click, coord_value, spec_coord_value, jitter_fits,
};
use crate::flow::{ExecFrame, ScanKind, scan_target};

verus! {

/// One step of dispatching an event, carried out in order by the player; a
/// failing backend call ends the event.
#[derive(Debug, Clone, PartialEq, Eq)]
pub enum BackendStep {
    MoveTo { x: i32, y: i32 },
    Press(ClickButton),
    Release(ClickButton),
    Scroll { dx: i32, dy: i32 },
    KeyDown { key: String, code: u16 },
    KeyUp { key: String, code: u16 },
    /// Hold for this many milliseconds.
    Sleep(u64),
}

pub enum BackendStepV {
    MoveTo { x: i32, y: i32 },
    Press(ClickButton),
    Release(ClickButton),
    Scroll { dx: i32, dy: i32 },
    KeyDown { key: Seq<char>, code: u16 },
    KeyUp { key: Seq<char>, code: u16 },
    Sleep(u64),
}

impl View for BackendStep {
    type V = BackendStepV;

    open spec fn view(&self) -> BackendStepV {
        match self {
            BackendStep::MoveTo { x, y } => BackendStepV::MoveTo { x: *x, y: *y },
            BackendStep::Press(b) => BackendStepV::Press(*b),
            BackendStep::Release(b) => BackendStepV::Release(*b),
            BackendStep::Scroll { dx, dy } => BackendStepV::Scroll { dx: *dx, dy: *dy },
            BackendStep::KeyDown { key, code } => BackendStepV::KeyDown { key: key@, code: *code },
            BackendStep::KeyUp { key, code } => BackendStepV::KeyUp { key: key@, code: *code },
            BackendStep::Sleep(ms) => BackendStepV::Sleep(*ms),
        }
    }
}

pub open spec fn steps_view(s: Seq<BackendStep>) -> Seq<BackendStepV> {
    s.map_values(|x: BackendStep| x@)
}

pub open spec fn spec_is_suppressed(code: u16, record_hk: Option<Hotkey>, play_hk: Option<Hotkey>) -> bool {
    (record_hk matches Some(hk) && hk.code == code) || (play_hk matches Some(hk) && hk.code == code)
}

/// Whether a key is the record or play hotkey, which playback does not press.
pub fn is_suppressed(code: u16, record_hk: Option<Hotkey>, play_hk: Option<Hotkey>) -> (b: bool)
    ensures
        b == spec_is_suppressed(code, record_hk, play_hk),
{
    let r = match record_hk {
        Some(hk) => hk.code == code,
        None => false,
    };
    let p = match play_hk {
        Some(hk) => hk.code == code,
        None => false,
    };
    r || p
}

/// The move to an absolute position shifted by the jitter; none for the current position.
pub open spec fn move_steps(p: MousePositionV, jitter: (i32, i32)) -> Seq<BackendStepV> {
    match p {
        MousePositionV::Absolute { x, y } => seq![
            BackendStepV::MoveTo {
                x: (spec_coord_value(x) + jitter.0) as i32,
                y: (spec_coord_value(y) + jitter.1) as i32,
            },
        ],
        MousePositionV::Current => Seq::empty(),
    }
}

/// The backend steps that play an event: moves, presses with their hold,
/// releases, wheel turns and keys; the record and play hotkeys are not pressed.
pub open spec fn spec_dispatch_steps(e: MacroEventV, record_hk: Option<Hotkey>, play_hk: Option<Hotkey>, jitter: (i32, i32)) -> Seq<BackendStepV> {
    match e {
        MacroEventV::Delay(_) => Seq::empty(),
        MacroEventV::MouseMove { x, y } => seq![BackendStepV::MoveTo { x: spec_coord_value(x), y: spec_coord_value(y) }],
        MacroEventV::Click { position, button, hold_time_ms, .. } => move_steps(position, jitter) + seq![
            BackendStepV::Press(spec_click_button(button)),
            BackendStepV::Sleep(hold_time_ms as u64),
            BackendStepV::Release(spec_click_button(button)),
        ],
        MacroEventV::MouseDown { position, button, .. } => move_steps(position, jitter) + seq![
            BackendStepV::Press(spec_click_button(button)),
        ],
        MacroEventV::MouseUp { button, .. } => seq![BackendStepV::Release(spec_click_button(button))],
        MacroEventV::Scroll { dx, dy } => seq![BackendStepV::Scroll { dx, dy }],
        MacroEventV::KeyDown { key, code } => if spec_is_suppressed(code, record_hk, play_hk) {
            Seq::empty()
        } else {
            seq![BackendStepV::KeyDown { key, code }]
        },
        MacroEventV::KeyUp { key, code } => if spec_is_suppressed(code, record_hk, play_hk) {
            Seq::empty()
        } else {
            seq![BackendStepV::KeyUp { key, code }]
        },
        MacroEventV::KeyPress { key, code, hold_time_ms } => if spec_is_suppressed(code, record_hk, play_hk) {
            Seq::empty()
        } else {
            seq![
                BackendStepV::KeyDown { key, code },
                BackendStepV::Sleep(hold_time_ms as u64),
                BackendStepV::KeyUp { key, code },
            ]
        },
    }
}

/// Playing an event never sends the record or play hotkey. A click presses
/// its button, holds it for the recorded time and releases the same button,
/// after at most one move; a mouse-up releases the button that went down; a
/// key press sends the key down and the same key up with the hold between;
/// a wheel turn keeps both of its steps; a move goes to the event's point;
/// a delay sends nothing.
pub proof fn lemma_dispatch_steps_laws(e: MacroEventV, record_hk: Option<Hotkey>, play_hk: Option<Hotkey>, jitter: (i32, i32))
    ensures
        forall|k: int|
            0 <= k < spec_dispatch_steps(e, record_hk, play_hk, jitter).len() ==> match #[trigger] spec_dispatch_steps(
                e,
                record_hk,
                play_hk,
                jitter,
            )[k] {
                BackendStepV::KeyDown { code, .. } => !spec_is_suppressed(code, record_hk, play_hk),
                BackendStepV::KeyUp { code, .. } => !spec_is_suppressed(code, record_hk, play_hk),
                _ => true,
            },
        ({
            let st = spec_dispatch_steps(e, record_hk, play_hk, jitter);
            let n = st.len();
            match e {
                MacroEventV::Click { position, button, hold_time_ms, .. } => {
                    &&& 3 <= n <= 4
                    &&& (position is Current <==> n == 3)
                    &&& st[n - 3] == BackendStepV::Press(spec_click_button(button))
                    &&& st[n - 2] == BackendStepV::Sleep(hold_time_ms as u64)
                    &&& st[n - 1] == BackendStepV::Release(spec_click_button(button))
                },
                MacroEventV::MouseUp { button, .. } => st == seq![BackendStepV::Release(spec_click_button(button))],
                MacroEventV::KeyPress { key, code, hold_time_ms } => if spec_is_suppressed(code, record_hk, play_hk) {
                    n == 0
                } else {
                    &&& n == 3
                    &&& st[0] == (BackendStepV::KeyDown { key: key, code: code })
                    &&& st[1] == BackendStepV::Sleep(hold_time_ms as u64)
                    &&& st[2] == (BackendStepV::KeyUp { key: key, code: code })
                },
                MacroEventV::Scroll { dx, dy } => st == seq![(BackendStepV::Scroll { dx: dx, dy: dy })],
                MacroEventV::MouseMove { x, y } => st == seq![
                    (BackendStepV::MoveTo { x: spec_coord_value(x), y: spec_coord_value(y) }),
                ],
                MacroEventV::Delay(_) => n == 0,
                _ => true,
            }
        }),
{
    let st = spec_dispatch_steps(e, record_hk, play_hk, jitter);
    assert forall|k: int| 0 <= k < st.len() implies match #[trigger] st[k] {
        BackendStepV::KeyDown { code, .. } => !spec_is_suppressed(code, record_hk, play_hk),
        BackendStepV::KeyUp { code, .. } => !spec_is_suppressed(code, record_hk, play_hk),
        _ => true,
    } by {
        match e {
            MacroEventV::Click { position, .. } => {
                if k < move_steps(position, jitter).len() {
                    assert(st[k] == move_steps(position, jitter)[k]);
                }
            },
            MacroEventV::MouseDown { position, .. } => {
                if k < move_steps(position, jitter).len() {
                    assert(st[k] == move_steps(position, jitter)[k]);
                }
            },
            _ => {},
        }
    }
}

pub open spec fn dispatch_fits(e: MacroEventV, jitter: (i32, i32)) -> bool {
    match e {
        MacroEventV::Click { position, .. } => jitter_fits(position, jitter),
        MacroEventV::MouseDown { position, .. } => jitter_fits(position, jitter),
        _ => true,
    }
}

fn push_move(steps: &mut Vec<BackendStep>, pos: &MousePosition, jitter: (i32, i32))
    requires
        jitter_fits(pos@, jitter),
    ensures
        steps_view(final(steps)@) == steps_view(old(steps)@) + move_steps(pos@, jitter),
{
    let ghost before = steps_view(steps@);
    match pos {
        MousePosition::Absolute { x, y } => {
            steps.push(BackendStep::MoveTo { x: coord_value(x) + jitter.0, y: coord_value(y) + jitter.1 });
        },
        MousePosition::Current => {},
    }
    assert(steps_view(steps@) =~= before + move_steps(pos@, jitter));
}

/// The backend steps that play `event`.
pub fn dispatch_steps(event: &MacroEvent, record_hk: Option<Hotkey>, play_hk: Option<Hotkey>, jitter: (i32, i32)) -> (steps: Vec<BackendStep>)
    requires
        dispatch_fits(event@, jitter),
    ensures
        steps_view(steps@) == spec_dispatch_steps(event@, record_hk, play_hk, jitter),
{
    let mut steps: Vec<BackendStep> = Vec::new();
    let ghost empty = steps_view(steps@);
    assert(empty =~= Seq::<BackendStepV>::empty());
    match event {
        MacroEvent::Delay(_) => {},
        MacroEvent::MouseMove { x, y } => {
            steps.push(BackendStep::MoveTo { x: coord_value(x), y: coord_value(y) });
        },
        MacroEvent::Click { position, button, hold_time_ms, .. } => {
            push_move(&mut steps, position, jitter);
            let b = macro_button_to_click(button);
            steps.push(BackendStep::Press(b));
            steps.push(BackendStep::Sleep(*hold_time_ms as u64));
            steps.push(BackendStep::Release(b));
        },
        MacroEvent::MouseDown { position, button, .. } => {
            push_move(&mut steps, position, jitter);
            steps.push(BackendStep::Press(macro_button_to_click(button)));
        },
        MacroEvent::MouseUp { button, .. } => {
            steps.push(BackendStep::Release(macro_button_to_click(button)));
        },
        MacroEvent::Scroll { dx, dy } => {
            steps.push(BackendStep::Scroll { dx: *dx, dy: *dy });
        },
        MacroEvent::KeyDown { key, code } => {
            if !is_suppressed(*code, record_hk, play_hk) {
                steps.push(BackendStep::KeyDown { key: key.clone(), code: *code });
            }
        },
        MacroEvent::KeyUp { key, code } => {
            if !is_suppressed(*code, record_hk, play_hk) {
                steps.push(BackendStep::KeyUp { key: key.clone(), code: *code });
            }
        },
        MacroEvent::KeyPress { key, code, hold_time_ms } => {
            if !is_suppressed(*code, record_hk, play_hk) {
                steps.push(BackendStep::KeyDown { key: key.clone(), code: *code });
                steps.push(BackendStep::Sleep(*hold_time_ms as u64));
                steps.push(BackendStep::KeyUp { key: key.clone(), code: *code });
            }
        },
    }
    assert(steps_view(steps@) =~= spec_dispatch_steps(event@, record_hk, play_hk, jitter));
    steps
}

// ---------------------------------------------------------------------------
// screen conditions
// ---------------------------------------------------------------------------
/// `IfPixelColor`, `IfColorFound` and `IfImageFound` after their check: a
/// condition that does not hold skips to the `Else` or `EndIf`.
pub fn apply_condition(holds: bool, frame: &mut ExecFrame)
    ensures
        final(frame).commands == old(frame).commands,
        final(frame).loop_stack == old(frame).loop_stack,
        final(frame).labels == old(frame).labels,
        holds ==> final(frame).idx == old(frame).idx,
        !holds ==> final(frame).idx == scan_target(old(frame).cmds(), old(frame).idx as int, 0, ScanKind::ElseOrEndIf),
{
    if !holds {
        frame.skip_to_else_or_endif();
    }
}

/// An image was found: with "trigger if not found" the branch is skipped;
/// otherwise it is entered. Returns whether to move the cursor to the image.
pub fn handle_found_image(move_cursor: bool, trigger_not_found: bool, frame: &mut ExecFrame) -> (mv: bool)
    ensures
        mv == (!trigger_not_found && move_cursor),
        final(frame).commands == old(frame).commands,
        final(frame).loop_stack == old(frame).loop_stack,
        final(frame).labels == old(frame).labels,
        !trigger_not_found ==> final(frame).idx == old(frame).idx,
        trigger_not_found ==> final(frame).idx == scan_target(old(frame).cmds(), old(frame).idx as int, 0, ScanKind::ElseOrEndIf),
{
    apply_condition(!trigger_not_found, frame);
    !trigger_not_found && move_cursor
}

/// No image was found (or the search failed): the branch is entered only
/// with "trigger if not found".
pub fn handle_missing_image(trigger_not_found: bool, frame: &mut ExecFrame)
    ensures
        final(frame).commands == old(frame).commands,
        final(frame).loop_stack == old(frame).loop_stack,
        final(frame).labels == old(frame).labels,
        trigger_not_found ==> final(frame).idx == old(frame).idx,
        !trigger_not_found ==> final(frame).idx == scan_target(old(frame).cmds(), old(frame).idx as int, 0, ScanKind::ElseOrEndIf),
{
    apply_condition(trigger_not_found, frame);
}

} // verus!

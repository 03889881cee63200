//! What the virtual input device writes for each pointer and key action:
//! Linux input events, each report closed by a `SYN_REPORT`, with the
//! pauses a click holds in between.
use vstd::prelude::*;
use crate::types::{ClickButton, ClickType, BTN_LEFT_CODE, BTN_RIGHT_CODE, BTN_MIDDLE_CODE};

verus! {

pub const EV_SYN: u16 = 0x00;
pub const EV_KEY: u16 = 0x01;
pub const EV_REL: u16 = 0x02;
pub const EV_ABS: u16 = 0x03;
pub const ABS_X: u16 = 0x00;
pub const ABS_Y: u16 = 0x01;
pub const REL_X: u16 = 0x00;
pub const REL_Y: u16 = 0x01;
pub const REL_HWHEEL: u16 = 0x06;
pub const REL_WHEEL: u16 = 0x08;
pub const SYN_REPORT: u16 = 0x00;

/// One thing the device does: write an input event, or wait.
#[derive(Debug, Clone, Copy, PartialEq, Eq, Structural)]
pub enum InputStep {
    Event { kind: u16, code: u16, value: i32 },
    Sleep { ms: u64 },
}

pub open spec fn ev(kind: u16, code: u16, value: i32) -> InputStep {
    InputStep::Event { kind, code, value }
}

/// The event that closes a report.
pub open spec fn syn() -> InputStep {
    ev(EV_SYN, SYN_REPORT, 0)
}

pub open spec fn spec_btn_code(button: ClickButton) -> u16 {
    match button {
        ClickButton::Left => BTN_LEFT_CODE,
        ClickButton::Right => BTN_RIGHT_CODE,
        ClickButton::Middle => BTN_MIDDLE_CODE,
    }
}

/// The key code of a mouse button.
pub fn btn_code(button: ClickButton) -> (r: u16)
    ensures
        r == spec_btn_code(button),
{
    match button {
        ClickButton::Left => BTN_LEFT_CODE,
        ClickButton::Right => BTN_RIGHT_CODE,
        ClickButton::Middle => BTN_MIDDLE_CODE,
    }
}

fn push_event(v: &mut Vec<InputStep>, kind: u16, code: u16, value: i32)
    ensures
        final(v)@ == old(v)@.push(ev(kind, code, value)),
{
    v.push(InputStep::Event { kind, code, value });
}

fn push_syn(v: &mut Vec<InputStep>)
    ensures
        final(v)@ == old(v)@.push(syn()),
{
    v.push(InputStep::Event { kind: EV_SYN, code: SYN_REPORT, value: 0 });
}

/// An absolute move to `(x, y)`, then a one-pixel relative nudge there and
/// back, which makes compositors notice the pointer moved.
pub open spec fn spec_move_steps(x: i32, y: i32) -> Seq<InputStep> {
    seq![ev(EV_ABS, ABS_X, x), ev(EV_ABS, ABS_Y, y), syn(), ev(EV_REL, REL_X, 1), syn(), ev(EV_REL, REL_X, -1i32), syn()]
}

/// The events that move the pointer to `(x, y)`.
pub fn move_steps(x: i32, y: i32) -> (r: Vec<InputStep>)
    ensures
        r@ == spec_move_steps(x, y),
{
    let mut v: Vec<InputStep> = Vec::new();
    push_event(&mut v, EV_ABS, ABS_X, x);
    push_event(&mut v, EV_ABS, ABS_Y, y);
    push_syn(&mut v);
    push_event(&mut v, EV_REL, REL_X, 1);
    push_syn(&mut v);
    push_event(&mut v, EV_REL, REL_X, -1);
    push_syn(&mut v);
    assert(v@ =~= spec_move_steps(x, y));
    v
}

/// The events that press (`down`) or release a key or button; none for
/// code 0 (`KEY_RESERVED`), which a recording can hold for unknown keys.
pub open spec fn spec_key_steps(code: u16, down: bool) -> Seq<InputStep> {
    if code == 0 {
        Seq::empty()
    } else {
        seq![ev(EV_KEY, code, if down { 1 } else { 0 }), syn()]
    }
}

/// The events that press or release a key or button.
pub fn key_steps(code: u16, down: bool) -> (r: Vec<InputStep>)
    ensures
        r@ == spec_key_steps(code, down),
{
    let mut v: Vec<InputStep> = Vec::new();
    if code == 0 {
        assert(v@ =~= spec_key_steps(code, down));
        return v;
    }
    push_event(&mut v, EV_KEY, code, if down { 1 } else { 0 });
    push_syn(&mut v);
    assert(v@ =~= spec_key_steps(code, down));
    v
}

/// Wheel events: vertical first (the wheel axis counts upwards, so the
/// step is negated) in its own report, then horizontal; nothing for no movement.
pub open spec fn spec_scroll_steps(dx: i32, dy: i32) -> Seq<InputStep> {
    let vertical = if dy != 0 {
        seq![ev(EV_REL, REL_WHEEL, (-dy) as i32), syn()]
    } else {
        Seq::empty()
    };
    let horizontal = if dx != 0 {
        seq![ev(EV_REL, REL_HWHEEL, dx)]
    } else {
        Seq::empty()
    };
    let close = if dx != 0 || dy != 0 {
        seq![syn()]
    } else {
        Seq::empty()
    };
    vertical + horizontal + close
}

/// The events that scroll by `(dx, dy)` notches.
pub fn scroll_steps(dx: i32, dy: i32) -> (r: Vec<InputStep>)
    requires
        dy != i32::MIN,
    ensures
        r@ == spec_scroll_steps(dx, dy),
{
    let mut v: Vec<InputStep> = Vec::new();
    if dy != 0 {
        push_event(&mut v, EV_REL, REL_WHEEL, -dy);
        push_syn(&mut v);
    }
    if dx != 0 {
        push_event(&mut v, EV_REL, REL_HWHEEL, dx);
    }
    if dx != 0 || dy != 0 {
        push_syn(&mut v);
    }
    assert(v@ =~= spec_scroll_steps(dx, dy));
    v
}

/// One click of the button with key code `code`: press, hold for
/// `hold_ms` if any, release.
pub open spec fn spec_single_click(code: u16, hold_ms: u64) -> Seq<InputStep> {
    let hold = if hold_ms > 0 {
        seq![InputStep::Sleep { ms: hold_ms }]
    } else {
        Seq::empty()
    };
    seq![ev(EV_KEY, code, 1), syn()] + hold + seq![ev(EV_KEY, code, 0), syn()]
}

/// A click at `(x, y)`: a move there first (and a short settle) when
/// `move_cursor`, then one click, or two clicks 40 ms apart.
pub open spec fn spec_click_steps(
    x: i32,
    y: i32,
    button: ClickButton,
    click_type: ClickType,
    hold_ms: u64,
    move_cursor: bool,
) -> Seq<InputStep> {
    let lead = if move_cursor {
        spec_move_steps(x, y).push(InputStep::Sleep { ms: 10 })
    } else {
        Seq::empty()
    };
    let one = spec_single_click(spec_btn_code(button), hold_ms);
    match click_type {
        ClickType::Single => lead + one,
        ClickType::Double => lead + one + seq![InputStep::Sleep { ms: 40 }] + one,
    }
}

/// Whether a step writes a key or button event.
pub open spec fn is_key_event(st: InputStep) -> bool {
    st matches InputStep::Event { kind, .. } && kind == EV_KEY
}

/// What the device writes keeps each report closed and touches only what
/// was asked: a move goes to `x` then `y` and its relative nudge cancels
/// out; a wheel turn writes the vertical step negated on the wheel axis and
/// the horizontal step on the horizontal wheel, and nothing when there is
/// no movement; a key goes down with value 1 and up with 0; a click presses
/// and releases only its own button, presses it first after the optional
/// move, holds it as long as asked, and ends released with the report
/// closed, and the three buttons have different codes.
pub proof fn lemma_input_steps_laws(
    x: i32,
    y: i32,
    dx: i32,
    dy: i32,
    code: u16,
    down: bool,
    button: ClickButton,
    click_type: ClickType,
    hold_ms: u64,
    move_cursor: bool,
)
    requires
        dy != i32::MIN,
    ensures
        spec_move_steps(x, y)[0] == ev(EV_ABS, ABS_X, x),
        spec_move_steps(x, y)[1] == ev(EV_ABS, ABS_Y, y),
        spec_move_steps(x, y)[3]->Event_value + spec_move_steps(x, y)[5]->Event_value == 0,
        spec_move_steps(x, y).last() == syn(),
        dx == 0 && dy == 0 <==> spec_scroll_steps(dx, dy).len() == 0,
        dy != 0 ==> spec_scroll_steps(dx, dy)[0] == ev(EV_REL, REL_WHEEL, (-dy) as i32),
        dx != 0 ==> spec_scroll_steps(dx, dy)[spec_scroll_steps(dx, dy).len() - 2] == ev(EV_REL, REL_HWHEEL, dx),
        dx != 0 || dy != 0 ==> spec_scroll_steps(dx, dy).last() == syn(),
        forall|k: int| 0 <= k < spec_scroll_steps(dx, dy).len() ==> !is_key_event(#[trigger] spec_scroll_steps(dx, dy)[k]),
        code != 0 ==> spec_key_steps(code, down) == seq![ev(EV_KEY, code, if down { 1i32 } else { 0i32 }), syn()],
        spec_btn_code(ClickButton::Left) != spec_btn_code(ClickButton::Right),
        spec_btn_code(ClickButton::Left) != spec_btn_code(ClickButton::Middle),
        spec_btn_code(ClickButton::Right) != spec_btn_code(ClickButton::Middle),
        ({
            let st = spec_click_steps(x, y, button, click_type, hold_ms, move_cursor);
            let lead: int = if move_cursor { 8 } else { 0 };
            let c = spec_btn_code(button);
            &&& forall|k: int| 0 <= k < st.len() && is_key_event(#[trigger] st[k]) ==> st[k]->Event_code == c
            &&& st[lead] == ev(EV_KEY, c, 1)
            &&& st[lead + 1] == syn()
            &&& hold_ms > 0 ==> st[lead + 2] == (InputStep::Sleep { ms: hold_ms })
            &&& st[st.len() - 2] == ev(EV_KEY, c, 0)
            &&& st.last() == syn()
            &&& (move_cursor ==> st.subrange(0, 7) == spec_move_steps(x, y))
        }),
{
    let st = spec_click_steps(x, y, button, click_type, hold_ms, move_cursor);
    let lead = if move_cursor {
        spec_move_steps(x, y).push(InputStep::Sleep { ms: 10 })
    } else {
        Seq::empty()
    };
    let c = spec_btn_code(button);
    let one = spec_single_click(c, hold_ms);
    assert(forall|k: int| 0 <= k < lead.len() ==> !is_key_event(#[trigger] lead[k]));
    assert(forall|k: int| 0 <= k < one.len() && is_key_event(#[trigger] one[k]) ==> one[k]->Event_code == c);
    match click_type {
        ClickType::Single => {
            assert(st == lead + one);
        },
        ClickType::Double => {
            let mid = lead + one + seq![InputStep::Sleep { ms: 40 }];
            assert(st == mid + one);
            assert(forall|k: int| 0 <= k < mid.len() && is_key_event(#[trigger] mid[k]) ==> mid[k]->Event_code == c);
        },
    }
    if move_cursor {
        assert(st.subrange(0, 7) =~= spec_move_steps(x, y));
    }
}

fn push_single_click(v: &mut Vec<InputStep>, code: u16, hold_ms: u64)
    ensures
        final(v)@ == old(v)@ + spec_single_click(code, hold_ms),
{
    push_event(v, EV_KEY, code, 1);
    push_syn(v);
    if hold_ms > 0 {
        v.push(InputStep::Sleep { ms: hold_ms });
    }
    push_event(v, EV_KEY, code, 0);
    push_syn(v);
    assert(v@ =~= old(v)@ + spec_single_click(code, hold_ms));
}

/// What the device does for one click.
pub fn click_steps(x: i32, y: i32, button: ClickButton, click_type: ClickType, hold_ms: u64, move_cursor: bool) -> (r: Vec<
    InputStep,
>)
    ensures
        r@ == spec_click_steps(x, y, button, click_type, hold_ms, move_cursor),
{
    let mut v: Vec<InputStep> = if move_cursor {
        let mut m = move_steps(x, y);
        m.push(InputStep::Sleep { ms: 10 });
        m
    } else {
        Vec::new()
    };
    let ghost lead = v@;
    let code = btn_code(button);
    push_single_click(&mut v, code, hold_ms);
    match click_type {
        ClickType::Single => {},
        ClickType::Double => {
            v.push(InputStep::Sleep { ms: 40 });
            push_single_click(&mut v, code, hold_ms);
        },
    }
    assert(v@ =~= spec_click_steps(x, y, button, click_type, hold_ms, move_cursor));
    v
}

} // verus!

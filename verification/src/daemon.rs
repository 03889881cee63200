//! The input daemon's decisions: kernel input events to recorded events and
//! hotkey reports, touch taps and drags, GUI requests, and reading screen
//! sizes out of tool output.
use vstd::prelude::*;
use crate::text::{is_ws, skip_ws, lemma_skip_ws_bounds, parse_int, parse_int_chars, chars_of, string_of};
use crate::types::{
    HotkeyEvent, HardwareEvent, HardwareEventKind, MacroButton, DaemonRequest, BTN_LEFT_CODE,
    BTN_RIGHT_CODE, BTN_MIDDLE_CODE,
};

verus! {

// ---------------------------------------------------------------------------
// kernel codes
// ---------------------------------------------------------------------------
pub const BTN_TOUCH_CODE: u16 = 0x14a;
pub const BTN_TOOL_FINGER_CODE: u16 = 0x145;
pub const REL_X_CODE: u16 = 0x00;
pub const REL_Y_CODE: u16 = 0x01;
pub const REL_HWHEEL_CODE: u16 = 0x06;
pub const REL_WHEEL_CODE: u16 = 0x08;
pub const ABS_X_CODE: u16 = 0x00;
pub const ABS_Y_CODE: u16 = 0x01;
pub const ABS_MT_POSITION_X_CODE: u16 = 0x35;
pub const ABS_MT_POSITION_Y_CODE: u16 = 0x36;
pub const ABS_MT_TRACKING_ID_CODE: u16 = 0x39;

/// The longest touch that still counts as a tap, and the longest gap between
/// a tap and the touch that starts a drag, in nanoseconds.
pub const TAP_MAX_DURATION_NS: u64 = 200000000;

/// The farthest a finger may move during a tap.
pub const TAP_MAX_DISPLACEMENT: i32 = 20;

/// What handling one input event sends besides its own event, in order.
#[derive(Debug, Clone, PartialEq, Eq)]
pub enum Sent {
    Hotkey(HotkeyEvent),
    Hardware(HardwareEvent),
}

// ---------------------------------------------------------------------------
// touch pads
// ---------------------------------------------------------------------------
/// Tap and drag tracking of one touch device. Times are nanoseconds since the
/// Unix epoch.
#[derive(Debug, Clone, Copy, PartialEq, Eq, Structural)]
pub struct TapState {
    pub touch_down_time: Option<u64>,
    pub last_tap_time: Option<u64>,
    pub start_x: Option<i32>,
    pub start_y: Option<i32>,
    pub last_x: Option<i32>,
    pub last_y: Option<i32>,
    pub is_dragging: bool,
}

pub open spec fn abs_diff(l: Option<i32>, s: Option<i32>) -> int {
    match (l, s) {
        (Some(a), Some(b)) => if a >= b {
            a - b
        } else {
            b - a
        },
        _ => 0,
    }
}

/// Whether the distances from the start fit in `i32`.
pub open spec fn displacement_fits(t: TapState) -> bool {
    abs_diff(t.last_x, t.start_x) <= i32::MAX && abs_diff(t.last_y, t.start_y) <= i32::MAX
}

pub open spec fn spec_displacement(t: TapState) -> int {
    let dx = abs_diff(t.last_x, t.start_x);
    let dy = abs_diff(t.last_y, t.start_y);
    if dx >= dy {
        dx
    } else {
        dy
    }
}

/// How far a finger moved is the larger of its horizontal and vertical
/// distances from where it touched down: never less than either, equal to
/// one of them, the same measured either way round, and zero when it ended
/// where it started.
pub proof fn lemma_displacement_laws(t: TapState)
    ensures
        spec_displacement(t) >= abs_diff(t.last_x, t.start_x),
        spec_displacement(t) >= abs_diff(t.last_y, t.start_y),
        spec_displacement(t) == abs_diff(t.last_x, t.start_x) || spec_displacement(t) == abs_diff(t.last_y, t.start_y),
        spec_displacement(t) == spec_displacement(
            (TapState { start_x: t.last_x, last_x: t.start_x, start_y: t.last_y, last_y: t.start_y, ..t }),
        ),
        t.last_x == t.start_x && t.last_y == t.start_y ==> spec_displacement(t) == 0,
        spec_displacement(t) >= 0,
{
}

/// Whole nanoseconds from `from` to `to`, when `to` is not earlier.
pub open spec fn elapsed(from: u64, to: u64) -> Option<int> {
    if to >= from {
        Some(to - from)
    } else {
        None
    }
}

pub open spec fn left_hotkey(pressed: bool) -> HotkeyEvent {
    HotkeyEvent { code: BTN_LEFT_CODE, pressed }
}

impl TapState {
    pub fn new() -> (t: TapState)
        ensures
            t == (TapState {
                touch_down_time: None,
                last_tap_time: None,
                start_x: None,
                start_y: None,
                last_x: None,
                last_y: None,
                is_dragging: false,
            }),
    {
        TapState {
            touch_down_time: None,
            last_tap_time: None,
            start_x: None,
            start_y: None,
            last_x: None,
            last_y: None,
            is_dragging: false,
        }
    }

    /// Notes an absolute x position; the first one of a touch is its start.
    pub fn update_abs_x(&mut self, val: i32)
        ensures
            *final(self) == (TapState {
                start_x: if old(self).start_x is None { Some(val) } else { old(self).start_x },
                last_x: Some(val),
                ..*old(self)
            }),
    {
        if self.start_x.is_none() {
            self.start_x = Some(val);
        }
        self.last_x = Some(val);
    }

    /// Notes an absolute y position; the first one of a touch is its start.
    pub fn update_abs_y(&mut self, val: i32)
        ensures
            *final(self) == (TapState {
                start_y: if old(self).start_y is None { Some(val) } else { old(self).start_y },
                last_y: Some(val),
                ..*old(self)
            }),
    {
        if self.start_y.is_none() {
            self.start_y = Some(val);
        }
        self.last_y = Some(val);
    }

    /// How far the finger moved from where the touch started, along the
    /// axis where it moved most.
    pub fn displacement(&self) -> (d: i32)
        requires
            displacement_fits(*self),
        ensures
            d == spec_displacement(*self),
    {
        let dx: i32 = match (self.last_x, self.start_x) {
            (Some(l), Some(s)) => {
                let d: i64 = l as i64 - s as i64;
                if d >= 0 {
                    d as i32
                } else {
                    (-d) as i32
                }
            },
            _ => 0,
        };
        let dy: i32 = match (self.last_y, self.start_y) {
            (Some(l), Some(s)) => {
                let d: i64 = l as i64 - s as i64;
                if d >= 0 {
                    d as i32
                } else {
                    (-d) as i32
                }
            },
            _ => 0,
        };
        if dx >= dy {
            dx
        } else {
            dy
        }
    }

    /// Lifting the finger during a drag ends it with a left release.
    pub fn cancel_drag(&mut self) -> (r: (Vec<Sent>, Option<HardwareEventKind>))
        ensures
            !old(self).is_dragging ==> *final(self) == *old(self) && r.0@.len() == 0 && r.1 is None,
            old(self).is_dragging ==> *final(self) == (TapState { is_dragging: false, ..*old(self) })
                && r.0@ == seq![Sent::Hotkey(left_hotkey(false))] && r.1 == Some(
                HardwareEventKind::MouseUp(MacroButton::Left),
            ),
    {
        if !self.is_dragging {
            return (Vec::new(), None);
        }
        self.is_dragging = false;
        let mut sent: Vec<Sent> = Vec::new();
        sent.push(Sent::Hotkey(HotkeyEvent { code: BTN_LEFT_CODE, pressed: false }));
        (sent, Some(HardwareEventKind::MouseUp(MacroButton::Left)))
    }

    /// A finger touches down at `hw_time`: a new touch starts, and a touch
    /// soon after a tap starts a drag with a left press.
    pub fn handle_touch_down(&mut self, hw_time: u64) -> (r: (Vec<Sent>, Option<HardwareEventKind>))
        ensures
            final(self).touch_down_time == Some(hw_time),
            final(self).last_tap_time == old(self).last_tap_time,
            final(self).start_x is None && final(self).start_y is None,
            final(self).last_x is None && final(self).last_y is None,
            ({
                let drag = match old(self).last_tap_time {
                    Some(t) => hw_time < t || hw_time - t <= TAP_MAX_DURATION_NS,
                    None => false,
                };
                &&& drag ==> final(self).is_dragging && r.0@ == seq![Sent::Hotkey(left_hotkey(true))]
                    && r.1 == Some(HardwareEventKind::MouseDown(MacroButton::Left))
                &&& !drag ==> final(self).is_dragging == old(self).is_dragging && r.0@.len() == 0
                    && r.1 is None
            }),
    {
        self.touch_down_time = Some(hw_time);
        self.start_x = None;
        self.start_y = None;
        self.last_x = None;
        self.last_y = None;
        match self.last_tap_time {
            Some(last_tap) => {
                let since = if hw_time >= last_tap {
                    hw_time - last_tap
                } else {
                    0
                };
                if since <= TAP_MAX_DURATION_NS {
                    self.is_dragging = true;
                    let mut sent: Vec<Sent> = Vec::new();
                    sent.push(Sent::Hotkey(HotkeyEvent { code: BTN_LEFT_CODE, pressed: true }));
                    return (sent, Some(HardwareEventKind::MouseDown(MacroButton::Left)));
                }
            },
            None => {},
        }
        (Vec::new(), None)
    }

    /// The finger lifts at `hw_time`: a drag ends with a left release; a
    /// short touch that barely moved is a tap, a left press and release.
    pub fn handle_touch_up(&mut self, hw_time: u64) -> (r: (Vec<Sent>, Option<HardwareEventKind>))
        requires
            displacement_fits(*old(self)),
        ensures
            final(self).touch_down_time is None,
            old(self).is_dragging ==> !final(self).is_dragging && final(self).last_tap_time
                == old(self).last_tap_time && r.0@ == seq![Sent::Hotkey(left_hotkey(false))] && r.1
                == Some(HardwareEventKind::MouseUp(MacroButton::Left)),
            !old(self).is_dragging ==> ({
                let el = match old(self).touch_down_time {
                    Some(t) => elapsed(t, hw_time),
                    None => None,
                };
                let tap = el matches Some(e) && e <= TAP_MAX_DURATION_NS && spec_displacement(*old(self))
                    <= TAP_MAX_DISPLACEMENT;
                &&& final(self).is_dragging == old(self).is_dragging
                &&& tap ==> final(self).last_tap_time == Some(hw_time) && r.0@ == seq![
                    Sent::Hotkey(left_hotkey(true)),
                    Sent::Hardware(HardwareEvent { hardware_time_ns: hw_time, kind: HardwareEventKind::MouseDown(MacroButton::Left) }),
                    Sent::Hotkey(left_hotkey(false)),
                ] && r.1 == Some(HardwareEventKind::MouseUp(MacroButton::Left))
                &&& !tap ==> r.0@.len() == 0 && r.1 is None && final(self).last_tap_time == (if el is Some {
                    None
                } else {
                    old(self).last_tap_time
                })
            }),
    {
        if self.is_dragging {
            self.is_dragging = false;
            self.touch_down_time = None;
            let mut sent: Vec<Sent> = Vec::new();
            sent.push(Sent::Hotkey(HotkeyEvent { code: BTN_LEFT_CODE, pressed: false }));
            return (sent, Some(HardwareEventKind::MouseUp(MacroButton::Left)));
        }
        let el: Option<u64> = match self.touch_down_time {
            Some(t) => if hw_time >= t {
                Some(hw_time - t)
            } else {
                None
            },
            None => None,
        };
        let displacement = self.displacement();
        let mut sent: Vec<Sent> = Vec::new();
        let mut return_event = None;
        match el {
            Some(e) => {
                if e <= TAP_MAX_DURATION_NS && displacement <= TAP_MAX_DISPLACEMENT {
                    sent.push(Sent::Hotkey(HotkeyEvent { code: BTN_LEFT_CODE, pressed: true }));
                    sent.push(
                        Sent::Hardware(
                            HardwareEvent {
                                hardware_time_ns: hw_time,
                                kind: HardwareEventKind::MouseDown(MacroButton::Left),
                            },
                        ),
                    );
                    sent.push(Sent::Hotkey(HotkeyEvent { code: BTN_LEFT_CODE, pressed: false }));
                    return_event = Some(HardwareEventKind::MouseUp(MacroButton::Left));
                    self.last_tap_time = Some(hw_time);
                } else {
                    self.last_tap_time = None;
                }
            },
            None => {},
        }
        self.touch_down_time = None;
        (sent, return_event)
    }
}

// ---------------------------------------------------------------------------
// buttons, keys and axes
// ---------------------------------------------------------------------------
/// A mouse button event: value 1 presses, 0 releases, anything else (a
/// repeat) is ignored; presses and releases are also reported as hotkeys.
pub fn dispatch_mouse_btn(val: i32, code: u16, btn: MacroButton) -> (r: (Option<HotkeyEvent>, Option<HardwareEventKind>))
    ensures
        val == 1 ==> r == (Some(HotkeyEvent { code, pressed: true }), Some(HardwareEventKind::MouseDown(btn))),
        val == 0 ==> r == (Some(HotkeyEvent { code, pressed: false }), Some(HardwareEventKind::MouseUp(btn))),
        val != 0 && val != 1 ==> r.0 is None && r.1 is None,
{
    if val == 1 {
        (Some(HotkeyEvent { code, pressed: true }), Some(HardwareEventKind::MouseDown(btn)))
    } else if val == 0 {
        (Some(HotkeyEvent { code, pressed: false }), Some(HardwareEventKind::MouseUp(btn)))
    } else {
        (None, None)
    }
}

/// A relative axis: pointer motion, or a wheel turn (the vertical wheel's
/// direction flipped to scroll down for positive values).
pub fn handle_rel_axis(axis: u16, val: i32) -> (r: Option<HardwareEventKind>)
    requires
        axis == REL_WHEEL_CODE ==> val != i32::MIN,
    ensures
        (axis == REL_X_CODE || axis == REL_Y_CODE) ==> r == Some(HardwareEventKind::MouseMove),
        axis == REL_WHEEL_CODE ==> r == Some(HardwareEventKind::Scroll { dx: 0, dy: (-val) as i32 }),
        axis == REL_HWHEEL_CODE ==> r == Some(HardwareEventKind::Scroll { dx: val, dy: 0 }),
        !(axis == REL_X_CODE || axis == REL_Y_CODE || axis == REL_WHEEL_CODE || axis == REL_HWHEEL_CODE)
            ==> r is None,
{
    if axis == REL_X_CODE || axis == REL_Y_CODE {
        Some(HardwareEventKind::MouseMove)
    } else if axis == REL_WHEEL_CODE {
        Some(HardwareEventKind::Scroll { dx: 0, dy: -val })
    } else if axis == REL_HWHEEL_CODE {
        Some(HardwareEventKind::Scroll { dx: val, dy: 0 })
    } else {
        None
    }
}

/// An absolute axis: positions move the pointer and feed the tap tracking; a
/// lifted touch slot ends a drag.
pub fn handle_abs_axis(axis: u16, val: i32, ts: &mut TapState) -> (r: (Vec<Sent>, Option<HardwareEventKind>))
    ensures
        (axis == ABS_X_CODE || axis == ABS_MT_POSITION_X_CODE) ==> r.0@.len() == 0 && r.1 == Some(
            HardwareEventKind::MouseMove,
        ) && final(ts).last_x == Some(val) && final(ts).start_x == (if old(ts).start_x is None {
            Some(val)
        } else {
            old(ts).start_x
        }),
        (axis == ABS_Y_CODE || axis == ABS_MT_POSITION_Y_CODE) ==> r.0@.len() == 0 && r.1 == Some(
            HardwareEventKind::MouseMove,
        ) && final(ts).last_y == Some(val) && final(ts).start_y == (if old(ts).start_y is None {
            Some(val)
        } else {
            old(ts).start_y
        }),
        axis == ABS_MT_TRACKING_ID_CODE && val == -1 && old(ts).is_dragging ==> !final(ts).is_dragging
            && r.0@ == seq![Sent::Hotkey(left_hotkey(false))] && r.1 == Some(
            HardwareEventKind::MouseUp(MacroButton::Left),
        ),
        axis == ABS_MT_TRACKING_ID_CODE && !(val == -1 && old(ts).is_dragging) ==> *final(ts) == *old(ts)
            && r.0@.len() == 0 && r.1 is None,
        !(axis == ABS_X_CODE || axis == ABS_MT_POSITION_X_CODE || axis == ABS_Y_CODE || axis
            == ABS_MT_POSITION_Y_CODE || axis == ABS_MT_TRACKING_ID_CODE) ==> *final(ts) == *old(ts)
            && r.0@.len() == 0 && r.1 is None,
{
    if axis == ABS_X_CODE || axis == ABS_MT_POSITION_X_CODE {
        ts.update_abs_x(val);
        (Vec::new(), Some(HardwareEventKind::MouseMove))
    } else if axis == ABS_Y_CODE || axis == ABS_MT_POSITION_Y_CODE {
        ts.update_abs_y(val);
        (Vec::new(), Some(HardwareEventKind::MouseMove))
    } else if axis == ABS_MT_TRACKING_ID_CODE {
        if val == -1 {
            ts.cancel_drag()
        } else {
            (Vec::new(), None)
        }
    } else {
        (Vec::new(), None)
    }
}

/// A key event with code `code` and kernel name `name`: mouse buttons,
/// touches and finger tools go to their handlers; other keys are reported
/// pressed (1) or released (0), with a hotkey report.
pub fn handle_key_event(code: u16, name: &str, val: i32, hw_time: u64, ts: &mut TapState) -> (r: (Vec<Sent>, Option<HardwareEventKind>))
    requires
        code == BTN_TOUCH_CODE && val == 0 ==> displacement_fits(*old(ts)),
    ensures
        code != BTN_LEFT_CODE && code != BTN_RIGHT_CODE && code != BTN_MIDDLE_CODE && code
            != BTN_TOUCH_CODE && code != BTN_TOOL_FINGER_CODE ==> *final(ts) == *old(ts) && (
        if val == 1 {
            r.0@ == seq![Sent::Hotkey(HotkeyEvent { code, pressed: true })] && (r.1 matches Some(
                HardwareEventKind::KeyDown(n, c),
            ) && n@ == name@ && c == code)
        } else if val == 0 {
            r.0@ == seq![Sent::Hotkey(HotkeyEvent { code, pressed: false })] && (r.1 matches Some(
                HardwareEventKind::KeyUp(n, c),
            ) && n@ == name@ && c == code)
        } else {
            r.0@.len() == 0 && r.1 is None
        }),
        code == BTN_LEFT_CODE ==> *final(ts) == *old(ts) && r.1 == dispatch_kind(val, MacroButton::Left),
        code == BTN_RIGHT_CODE ==> *final(ts) == *old(ts) && r.1 == dispatch_kind(val, MacroButton::Right),
        code == BTN_MIDDLE_CODE ==> *final(ts) == *old(ts) && r.1 == dispatch_kind(val, MacroButton::Middle),
{
    if code == BTN_LEFT_CODE || code == BTN_RIGHT_CODE || code == BTN_MIDDLE_CODE {
        let btn = if code == BTN_LEFT_CODE {
            MacroButton::Left
        } else if code == BTN_RIGHT_CODE {
            MacroButton::Right
        } else {
            MacroButton::Middle
        };
        let (hk, kind) = dispatch_mouse_btn(val, code, btn);
        let mut sent: Vec<Sent> = Vec::new();
        match hk {
            Some(h) => sent.push(Sent::Hotkey(h)),
            None => {},
        }
        (sent, kind)
    } else if code == BTN_TOUCH_CODE {
        if val == 1 {
            ts.handle_touch_down(hw_time)
        } else if val == 0 {
            ts.handle_touch_up(hw_time)
        } else {
            (Vec::new(), None)
        }
    } else if code == BTN_TOOL_FINGER_CODE {
        if val == 0 {
            ts.cancel_drag()
        } else {
            (Vec::new(), None)
        }
    } else if val == 1 {
        let mut sent: Vec<Sent> = Vec::new();
        sent.push(Sent::Hotkey(HotkeyEvent { code, pressed: true }));
        (sent, Some(HardwareEventKind::KeyDown(string_of(&chars_of(name)), code)))
    } else if val == 0 {
        let mut sent: Vec<Sent> = Vec::new();
        sent.push(Sent::Hotkey(HotkeyEvent { code, pressed: false }));
        (sent, Some(HardwareEventKind::KeyUp(string_of(&chars_of(name)), code)))
    } else {
        (Vec::new(), None)
    }
}

pub open spec fn dispatch_kind(val: i32, btn: MacroButton) -> Option<HardwareEventKind> {
    if val == 1 {
        Some(HardwareEventKind::MouseDown(btn))
    } else if val == 0 {
        Some(HardwareEventKind::MouseUp(btn))
    } else {
        None
    }
}

// ---------------------------------------------------------------------------
// GUI requests
// ---------------------------------------------------------------------------
/// What the daemon does for a request.
#[derive(Debug, Clone, Copy, PartialEq, Eq, Structural)]
pub enum RequestOutcome {
    /// The request goes to the input backend.
    Forward,
    /// Recording is on; whether it already was.
    RecordingStarted { was_running: bool },
    /// Recording is off; whether it was on.
    RecordingStopped { was_running: bool },
}

/// Handles the recording switch of a request; every other request is for the backend.
pub fn handle_request(req: &DaemonRequest, is_recording: &mut bool) -> (r: RequestOutcome)
    ensures
        (*req is StartRecording) ==> *final(is_recording) && r == (RequestOutcome::RecordingStarted {
            was_running: *old(is_recording),
        }),
        (*req is StopRecording) ==> !*final(is_recording) && r == (RequestOutcome::RecordingStopped {
            was_running: *old(is_recording),
        }),
        !(*req is StartRecording) && !(*req is StopRecording) ==> *final(is_recording) == *old(
            is_recording,
        ) && r == RequestOutcome::Forward,
{
    match req {
        DaemonRequest::StartRecording => RequestOutcome::RecordingStarted {
            was_running: handle_start_recording(is_recording),
        },
        DaemonRequest::StopRecording => RequestOutcome::RecordingStopped {
            was_running: handle_stop_recording(is_recording),
        },
        _ => RequestOutcome::Forward,
    }
}

/// Turns recording on; returns whether it was already on.
pub fn handle_start_recording(is_recording: &mut bool) -> (was: bool)
    ensures
        was == *old(is_recording),
        *final(is_recording),
{
    let was = *is_recording;
    *is_recording = true;
    was
}

/// Turns recording off; returns whether it was on.
pub fn handle_stop_recording(is_recording: &mut bool) -> (was: bool)
    ensures
        was == *old(is_recording),
        !*final(is_recording),
{
    let was = *is_recording;
    *is_recording = false;
    was
}

// ---------------------------------------------------------------------------
// screen sizes from tool output
// ---------------------------------------------------------------------------
/// Whether `pat` occurs in `s` at position `p`.
pub open spec fn occurs_at(s: Seq<char>, pat: Seq<char>, p: int) -> bool {
    0 <= p && p + pat.len() <= s.len() && s.subrange(p, p + pat.len()) == pat
}

/// The first position at or after `i` where `pat` occurs.
pub open spec fn find_sub(s: Seq<char>, pat: Seq<char>, i: int) -> Option<int>
    decreases s.len() + 1 - i,
{
    if i < 0 || i + pat.len() > s.len() {
        None
    } else if occurs_at(s, pat, i) {
        Some(i)
    } else {
        find_sub(s, pat, i + 1)
    }
}

pub proof fn lemma_find_sub(s: Seq<char>, pat: Seq<char>, i: int)
    ensures
        find_sub(s, pat, i) matches Some(p) ==> i <= p && occurs_at(s, pat, p),
    decreases s.len() + 1 - i,
{
    if !(i < 0 || i + pat.len() > s.len()) && !occurs_at(s, pat, i) {
        lemma_find_sub(s, pat, i + 1);
    }
}

/// `s` from `i` on, split at each occurrence of a non-empty `pat`.
pub open spec fn split_on(s: Seq<char>, pat: Seq<char>, i: int) -> Seq<Seq<char>>
    decreases s.len() - i,
{
    if pat.len() == 0 || i < 0 || i > s.len() {
        Seq::empty()
    } else {
        proof {
            lemma_find_sub(s, pat, i);
        }
        match find_sub(s, pat, i) {
            None => seq![s.subrange(i, s.len() as int)],
            Some(p) => seq![s.subrange(i, p)] + split_on(s, pat, p + pat.len()),
        }
    }
}

/// The pieces put back together with the separator between them.
pub open spec fn join_with(parts: Seq<Seq<char>>, sep: Seq<char>) -> Seq<char>
    decreases parts.len(),
{
    if parts.len() == 0 {
        Seq::empty()
    } else if parts.len() == 1 {
        parts[0]
    } else {
        parts[0] + sep + join_with(parts.skip(1), sep)
    }
}

/// Splitting loses nothing: there is always at least one piece, and the
/// pieces joined again with the separator give back the text split.
pub proof fn lemma_split_on_rejoins(s: Seq<char>, pat: Seq<char>, i: int)
    requires
        pat.len() > 0,
        0 <= i <= s.len(),
    ensures
        split_on(s, pat, i).len() >= 1,
        join_with(split_on(s, pat, i), pat) == s.subrange(i, s.len() as int),
    decreases s.len() - i,
{
    lemma_find_sub(s, pat, i);
    match find_sub(s, pat, i) {
        None => {},
        Some(p) => {
            let rest = split_on(s, pat, p + pat.len());
            lemma_split_on_rejoins(s, pat, p + pat.len());
            let parts = split_on(s, pat, i);
            assert(parts == seq![s.subrange(i, p)] + rest);
            assert(parts.skip(1) =~= rest);
            assert(parts[0] == s.subrange(i, p));
            assert(s.subrange(p, p + pat.len()) == pat);
            assert(s.subrange(i, s.len() as int) =~= s.subrange(i, p) + pat + s.subrange(p + pat.len(), s.len() as int));
        },
    }
}

/// The separator between the objects of a JSON array.
pub open spec fn object_separator() -> Seq<char> {
    seq!['}', ',', '{']
}

fn find_sub_exec(s: &Vec<char>, pat: &Vec<char>, i: usize) -> (r: Option<usize>)
    requires
        i <= s.len(),
    ensures
        match find_sub(s@, pat@, i as int) {
            Some(p) => r == Some(p as usize),
            None => r is None,
        },
{
    proof {
        lemma_find_sub(s@, pat@, i as int);
    }
    if pat.len() > s.len() {
        return None;
    }
    let last = s.len() - pat.len();
    if i > last {
        return None;
    }
    let mut p = i;
    while p <= last
        invariant
            i <= p,
            last == s.len() - pat.len(),
            p <= last + 1,
            find_sub(s@, pat@, i as int) == find_sub(s@, pat@, p as int),
        decreases last + 1 - p,
    {
        let mut j: usize = 0;
        while j < pat.len() && s[p + j] == pat[j]
            invariant
                p <= last,
                last == s.len() - pat.len(),
                j <= pat.len(),
                forall|k: int| 0 <= k < j ==> s@[p + k] == pat@[k],
            decreases pat.len() - j,
        {
            j = j + 1;
        }
        if j == pat.len() {
            assert(s@.subrange(p as int, p + pat@.len()) =~= pat@);
            return Some(p);
        }
        assert(s@.subrange(p as int, p + pat@.len())[j as int] != pat@[j as int]);
        p = p + 1;
    }
    None
}

/// The objects of a JSON array written without spaces, cut at each `},{`.
pub fn split_json_objects(json: &str) -> (parts: Vec<String>)
    ensures
        parts@.map_values(|p: String| p@) == split_on(json@, object_separator(), 0),
{
    let s = chars_of(json);
    let mut pat: Vec<char> = Vec::new();
    pat.push('}');
    pat.push(',');
    pat.push('{');
    assert(pat@ =~= object_separator());
    let mut parts: Vec<String> = Vec::new();
    let mut i: usize = 0;
    loop
        invariant
            i <= s.len(),
            s@ == json@,
            pat@ == object_separator(),
            split_on(s@, pat@, 0) == parts@.map_values(|p: String| p@) + split_on(s@, pat@, i as int),
        decreases s.len() - i,
    {
        let ghost before = parts@.map_values(|p: String| p@);
        proof {
            lemma_find_sub(s@, pat@, i as int);
        }
        match find_sub_exec(&s, &pat, i) {
            Some(p) => {
                let piece = string_of(&slice(&s, i, p));
                parts.push(piece);
                assert(parts@.map_values(|q: String| q@) =~= before.push(s@.subrange(i as int, p as int)));
                assert(before + split_on(s@, pat@, i as int) =~= before.push(s@.subrange(i as int, p as int))
                    + split_on(s@, pat@, p + 3));
                i = p + 3;
            },
            None => {
                let piece = string_of(&slice(&s, i, s.len()));
                parts.push(piece);
                assert(parts@.map_values(|q: String| q@) =~= before.push(s@.subrange(i as int, s.len() as int)));
                assert(parts@.map_values(|q: String| q@) =~= split_on(s@, pat@, 0));
                return parts;
            },
        }
    }
}

fn slice(s: &Vec<char>, a: usize, b: usize) -> (r: Vec<char>)
    requires
        a <= b <= s.len(),
    ensures
        r@ == s@.subrange(a as int, b as int),
{
    crate::text::slice_chars(s, a, b)
}

/// The end of the run of digits and `-` starting at `i`.
pub open spec fn number_run_end(s: Seq<char>, i: int) -> int
    decreases s.len() - i,
{
    if i < 0 || i >= s.len() || !(('0' <= s[i] && s[i] <= '9') || s[i] == '-') {
        i
    } else {
        number_run_end(s, i + 1)
    }
}

proof fn lemma_number_run_end(s: Seq<char>, i: int)
    requires
        0 <= i <= s.len(),
    ensures
        i <= number_run_end(s, i) <= s.len(),
    decreases s.len() - i,
{
    if i < s.len() && (('0' <= s[i] && s[i] <= '9') || s[i] == '-') {
        lemma_number_run_end(s, i + 1);
    }
}

/// The `"key":` pattern of a JSON member.
pub open spec fn member_needle(key: Seq<char>) -> Seq<char> {
    seq!['"'] + key + seq!['"', ':']
}

/// The whole number after the first `"key":` in a JSON object's text: the
/// digits and `-` signs that follow, after white space.
pub open spec fn spec_json_i32(obj: Seq<char>, key: Seq<char>) -> Option<i32> {
    match find_sub(obj, member_needle(key), 0) {
        None => None,
        Some(p) => {
            let a = skip_ws(obj, p + member_needle(key).len());
            match parse_int(obj.subrange(a, number_run_end(obj, a)), true, i32::MIN as int, i32::MAX as int) {
                Some(v) => Some(v as i32),
                None => None,
            }
        },
    }
}

/// Reads an integer member of a JSON object's text without a JSON parser.
pub fn json_i32(obj: &str, key: &str) -> (r: Option<i32>)
    ensures
        r == spec_json_i32(obj@, key@),
{
    let s = chars_of(obj);
    let mut needle: Vec<char> = Vec::new();
    needle.push('"');
    let k = chars_of(key);
    crate::text::push_all(&mut needle, &k);
    needle.push('"');
    needle.push(':');
    assert(needle@ =~= member_needle(key@));
    let p = match find_sub_exec(&s, &needle, 0) {
        Some(p) => p,
        None => {
            return None;
        },
    };
    proof {
        lemma_find_sub(s@, needle@, 0);
    }
    let mut a = p + needle.len();
    proof {
        lemma_skip_ws_bounds(s@, a as int);
    }
    while a < s.len() && crate::text::is_whitespace(s[a])
        invariant
            p + needle.len() <= a <= s.len(),
            skip_ws(s@, p + needle@.len()) == skip_ws(s@, a as int),
        decreases s.len() - a,
    {
        a = a + 1;
    }
    proof {
        lemma_number_run_end(s@, a as int);
    }
    let mut e = a;
    while e < s.len() && (('0' <= s[e] && s[e] <= '9') || s[e] == '-')
        invariant
            a <= e <= s.len(),
            number_run_end(s@, a as int) == number_run_end(s@, e as int),
        decreases s.len() - e,
    {
        e = e + 1;
    }
    let digits = slice(&s, a, e);
    match parse_int_chars(&digits, true, i32::MIN as i128, i32::MAX as i128) {
        Some(v) => Some(v as i32),
        None => None,
    }
}

pub open spec fn max_i32(a: i32, b: i32) -> i32 {
    if a >= b {
        a
    } else {
        b
    }
}

/// The largest width and height over the objects that give both, from `(0, 0)`.
pub open spec fn widest(objs: Seq<Seq<char>>) -> (i32, i32)
    decreases objs.len(),
{
    if objs.len() == 0 {
        (0, 0)
    } else {
        let (mx, my) = widest(objs.drop_last());
        match (spec_json_i32(objs.last(), "width"@), spec_json_i32(objs.last(), "height"@)) {
            (Some(w), Some(h)) => (max_i32(mx, w), max_i32(my, h)),
            _ => (mx, my),
        }
    }
}

/// The size found is the largest width and the largest height among the
/// outputs that give both: no such output is wider or taller, and each of
/// the two is zero or is some output's.
pub proof fn lemma_widest_is_largest(objs: Seq<Seq<char>>)
    ensures
        widest(objs).0 >= 0 && widest(objs).1 >= 0,
        forall|k: int|
            0 <= k < objs.len() ==> match (spec_json_i32(#[trigger] objs[k], "width"@), spec_json_i32(objs[k], "height"@)) {
                (Some(w), Some(h)) => w <= widest(objs).0 && h <= widest(objs).1,
                _ => true,
            },
        widest(objs).0 == 0 || exists|k: int|
            0 <= k < objs.len() && spec_json_i32(#[trigger] objs[k], "width"@) == Some(widest(objs).0)
                && spec_json_i32(objs[k], "height"@) is Some,
        widest(objs).1 == 0 || exists|k: int|
            0 <= k < objs.len() && spec_json_i32(#[trigger] objs[k], "height"@) == Some(widest(objs).1)
                && spec_json_i32(objs[k], "width"@) is Some,
    decreases objs.len(),
{
    if objs.len() > 0 {
        let prev = objs.drop_last();
        lemma_widest_is_largest(prev);
        let n = objs.len() - 1;
        assert forall|k: int| 0 <= k < prev.len() implies #[trigger] objs[k] == prev[k] by {}
        if widest(objs).0 != 0 && widest(objs).0 == widest(prev).0 && widest(prev).0 != 0 {
            let k = choose|k: int|
                0 <= k < prev.len() && spec_json_i32(#[trigger] prev[k], "width"@) == Some(widest(prev).0)
                    && spec_json_i32(prev[k], "height"@) is Some;
            assert(objs[k] == prev[k]);
        }
        if widest(objs).1 != 0 && widest(objs).1 == widest(prev).1 && widest(prev).1 != 0 {
            let k = choose|k: int|
                0 <= k < prev.len() && spec_json_i32(#[trigger] prev[k], "height"@) == Some(widest(prev).1)
                    && spec_json_i32(prev[k], "width"@) is Some;
            assert(objs[k] == prev[k]);
        }
        assert(objs[n] == objs.last());
    }
}

/// The screen size from the JSON output of `wlr-randr --json`: the largest
/// output width and height, when both are positive.
pub fn wlr_randr_bounds(json: &str) -> (r: Option<(i32, i32)>)
    ensures
        ({
            let (mx, my) = widest(split_on(json@, object_separator(), 0));
            r == (if mx > 0 && my > 0 {
                Some((mx, my))
            } else {
                None
            })
        }),
{
    let objs = split_json_objects(json);
    let ghost ov = objs@.map_values(|p: String| p@);
    let mut max_x: i32 = 0;
    let mut max_y: i32 = 0;
    let mut i: usize = 0;
    while i < objs.len()
        invariant
            i <= objs.len(),
            ov == objs@.map_values(|p: String| p@),
            (max_x, max_y) == widest(ov.take(i as int)),
        decreases objs.len() - i,
    {
        assert(ov.take(i + 1).drop_last() =~= ov.take(i as int));
        let w = json_i32(objs[i].as_str(), "width");
        let h = json_i32(objs[i].as_str(), "height");
        match (w, h) {
            (Some(w), Some(h)) => {
                if w > max_x {
                    max_x = w;
                }
                if h > max_y {
                    max_y = h;
                }
            },
            _ => {},
        }
        i = i + 1;
    }
    assert(ov.take(objs.len() as int) =~= ov);
    if max_x > 0 && max_y > 0 {
        Some((max_x, max_y))
    } else {
        None
    }
}

/// The size assumed when no tool reports one.
pub fn fallback_screen_bounds() -> (r: (i32, i32))
    ensures
        r == (1920i32, 1080i32),
{
    (1920, 1080)
}

} // verus!

//! The data model shared by the recorder, the player, the script format and the
//! input daemon: buttons, keys, hotkeys, recorded events and macro commands.
use vstd::prelude::*;

verus! {

// ---------------------------------------------------------------------------
// buttons and click kinds
// ---------------------------------------------------------------------------
/// A mouse button as the input backends name it.
#[derive(Debug, Clone, Copy, PartialEq, Eq, Structural)]
pub enum ClickButton {
    Left,
    Right,
    Middle,
}

impl ClickButton {
    pub open spec fn spec_label(self) -> Seq<char> {
        match self {
            ClickButton::Left => "Left"@,
            ClickButton::Right => "Right"@,
            ClickButton::Middle => "Middle"@,
        }
    }

    /// The label shown for this button.
    pub fn label(&self) -> (s: &'static str)
        ensures
            s@ == self.spec_label(),
    {
        match self {
            ClickButton::Left => "Left",
            ClickButton::Right => "Right",
            ClickButton::Middle => "Middle",
        }
    }
}

/// Whether a click presses once or twice.
#[derive(Debug, Clone, Copy, PartialEq, Eq, Structural)]
pub enum ClickType {
    Single,
    Double,
}

impl ClickType {
    pub open spec fn spec_label(self) -> Seq<char> {
        match self {
            ClickType::Single => "Single"@,
            ClickType::Double => "Double"@,
        }
    }

    /// The label shown for this click kind.
    pub fn label(&self) -> (s: &'static str)
        ensures
            s@ == self.spec_label(),
    {
        match self {
            ClickType::Single => "Single",
            ClickType::Double => "Double",
        }
    }
}

/// A mouse button as recorded in a macro.
#[derive(Debug, Clone, Copy, PartialEq, Eq, Hash, Structural)]
pub enum MacroButton {
    Left,
    Right,
    Middle,
}

// ---------------------------------------------------------------------------
// key codes, modifiers and hotkeys
// ---------------------------------------------------------------------------
pub const BTN_LEFT_CODE: u16 = 0x110;
pub const BTN_RIGHT_CODE: u16 = 0x111;
pub const BTN_MIDDLE_CODE: u16 = 0x112;

pub const KEY_LEFTCTRL_CODE: u16 = 29;
pub const KEY_RIGHTCTRL_CODE: u16 = 97;
pub const KEY_LEFTSHIFT_CODE: u16 = 42;
pub const KEY_RIGHTSHIFT_CODE: u16 = 54;
pub const KEY_LEFTALT_CODE: u16 = 56;
pub const KEY_RIGHTALT_CODE: u16 = 100;
pub const KEY_LEFTMETA_CODE: u16 = 125;
pub const KEY_RIGHTMETA_CODE: u16 = 126;

/// A key press or release reported to the hotkey listener.
#[derive(Debug, Clone, Copy, PartialEq, Eq, Structural)]
pub struct HotkeyEvent {
    pub code: u16,
    pub pressed: bool,
}

/// Which modifier keys are held.
#[derive(Debug, Clone, Copy, PartialEq, Eq, Structural)]
pub struct Modifiers {
    pub ctrl: bool,
    pub shift: bool,
    pub alt: bool,
    pub meta: bool,
}

pub open spec fn is_ctrl(code: u16) -> bool {
    code == KEY_LEFTCTRL_CODE || code == KEY_RIGHTCTRL_CODE
}

pub open spec fn is_shift(code: u16) -> bool {
    code == KEY_LEFTSHIFT_CODE || code == KEY_RIGHTSHIFT_CODE
}

pub open spec fn is_alt(code: u16) -> bool {
    code == KEY_LEFTALT_CODE || code == KEY_RIGHTALT_CODE
}

pub open spec fn is_meta(code: u16) -> bool {
    code == KEY_LEFTMETA_CODE || code == KEY_RIGHTMETA_CODE
}

/// One of the eight left/right ctrl, shift, alt and meta key codes.
pub open spec fn spec_is_modifier_code(code: u16) -> bool {
    is_ctrl(code) || is_shift(code) || is_alt(code) || is_meta(code)
}

/// Each modifier key belongs to exactly one of the four modifiers, and each
/// modifier has a left and a right key.
pub proof fn lemma_modifier_classes(code: u16)
    ensures
        !(is_ctrl(code) && is_shift(code)),
        !(is_ctrl(code) && is_alt(code)),
        !(is_ctrl(code) && is_meta(code)),
        !(is_shift(code) && is_alt(code)),
        !(is_shift(code) && is_meta(code)),
        !(is_alt(code) && is_meta(code)),
        KEY_LEFTCTRL_CODE != KEY_RIGHTCTRL_CODE && KEY_LEFTSHIFT_CODE != KEY_RIGHTSHIFT_CODE && KEY_LEFTALT_CODE
            != KEY_RIGHTALT_CODE && KEY_LEFTMETA_CODE != KEY_RIGHTMETA_CODE,
{
}

impl Default for Modifiers {
    /// No modifier held.
    fn default() -> (m: Self)
        ensures
            m == Modifiers::none(),
    {
        Modifiers { ctrl: false, shift: false, alt: false, meta: false }
    }
}

impl Modifiers {
    pub open spec fn none() -> Modifiers {
        Modifiers { ctrl: false, shift: false, alt: false, meta: false }
    }

    /// Records a press or release of `code`; returns whether `code` is a modifier key.
    pub fn apply(&mut self, code: u16, pressed: bool) -> (is_mod: bool)
        ensures
            is_mod == spec_is_modifier_code(code),
            final(self).ctrl == (if is_ctrl(code) { pressed } else { old(self).ctrl }),
            final(self).shift == (if is_shift(code) { pressed } else { old(self).shift }),
            final(self).alt == (if is_alt(code) { pressed } else { old(self).alt }),
            final(self).meta == (if is_meta(code) { pressed } else { old(self).meta }),
    {
        if code == KEY_LEFTCTRL_CODE || code == KEY_RIGHTCTRL_CODE {
            self.ctrl = pressed;
            true
        } else if code == KEY_LEFTSHIFT_CODE || code == KEY_RIGHTSHIFT_CODE {
            self.shift = pressed;
            true
        } else if code == KEY_LEFTALT_CODE || code == KEY_RIGHTALT_CODE {
            self.alt = pressed;
            true
        } else if code == KEY_LEFTMETA_CODE || code == KEY_RIGHTMETA_CODE {
            self.meta = pressed;
            true
        } else {
            false
        }
    }

    /// Whether `code` is one of the modifier keys.
    pub fn is_modifier_code(code: u16) -> (b: bool)
        ensures
            b == spec_is_modifier_code(code),
    {
        code == KEY_LEFTCTRL_CODE || code == KEY_RIGHTCTRL_CODE || code == KEY_LEFTSHIFT_CODE
            || code == KEY_RIGHTSHIFT_CODE || code == KEY_LEFTALT_CODE || code
            == KEY_RIGHTALT_CODE || code == KEY_LEFTMETA_CODE || code == KEY_RIGHTMETA_CODE
    }
}

/// A key code together with the modifiers that must be held with it.
#[derive(Debug, Clone, Copy, PartialEq, Eq, Structural)]
pub struct Hotkey {
    pub code: u16,
    pub mods: Modifiers,
}

impl Hotkey {
    pub fn new(code: u16, mods: Modifiers) -> (h: Self)
        ensures
            h == (Hotkey { code, mods }),
    {
        Hotkey { code, mods }
    }

    /// A hotkey with no modifiers.
    pub fn plain(code: u16) -> (h: Self)
        ensures
            h == (Hotkey { code, mods: Modifiers::none() }),
    {
        Hotkey { code, mods: Modifiers::default() }
    }

    /// Whether `code` with exactly `mods` held triggers this hotkey.
    pub fn matches(&self, code: u16, mods: &Modifiers) -> (b: bool)
        ensures
            b == (self.code == code && self.mods == *mods),
    {
        self.code == code && self.mods == *mods
    }
}

// ---------------------------------------------------------------------------
// coordinates, positions and recorded events
// ---------------------------------------------------------------------------
/// A coordinate: a fixed number or a `$name` variable reference, resolved at
/// playback time (a missing variable reads as 0).
#[derive(Debug, Clone, PartialEq, Eq)]
pub enum Coord {
    Const(i32),
    Var(String),
}

pub enum CoordV {
    Const(i32),
    Var(Seq<char>),
}

impl View for Coord {
    type V = CoordV;

    open spec fn view(&self) -> CoordV {
        match self {
            Coord::Const(v) => CoordV::Const(*v),
            Coord::Var(s) => CoordV::Var(s@),
        }
    }
}

impl Coord {
    /// A copy with the same view.
    pub fn duplicate(&self) -> (r: Coord)
        ensures
            r@ == self@,
    {
        match self {
            Coord::Const(v) => Coord::Const(*v),
            Coord::Var(s) => Coord::Var(s.clone()),
        }
    }
}

/// Where a click happens: at given coordinates, or wherever the cursor is.
#[derive(Debug, Clone, PartialEq, Eq)]
pub enum MousePosition {
    Absolute { x: Coord, y: Coord },
    Current,
}

pub enum MousePositionV {
    Absolute { x: CoordV, y: CoordV },
    Current,
}

impl View for MousePosition {
    type V = MousePositionV;

    open spec fn view(&self) -> MousePositionV {
        match self {
            MousePosition::Absolute { x, y } => MousePositionV::Absolute { x: x@, y: y@ },
            MousePosition::Current => MousePositionV::Current,
        }
    }
}

impl MousePosition {
    pub fn duplicate(&self) -> (r: MousePosition)
        ensures
            r@ == self@,
    {
        match self {
            MousePosition::Absolute { x, y } => MousePosition::Absolute {
                x: x.duplicate(),
                y: y.duplicate(),
            },
            MousePosition::Current => MousePosition::Current,
        }
    }
}

/// One recorded (or hand-written) input action.
#[derive(Debug, Clone, PartialEq, Eq)]
pub enum MacroEvent {
    /// A recorded pause, in microseconds.
    Delay(u64),
    MouseMove { x: Coord, y: Coord },
    Click { position: MousePosition, button: MacroButton, jitter: u32, hold_time_ms: u32 },
    MouseDown { position: MousePosition, button: MacroButton, jitter: u32 },
    MouseUp { position: MousePosition, button: MacroButton, jitter: u32 },
    Scroll { dx: i32, dy: i32 },
    KeyDown { key: String, code: u16 },
    KeyUp { key: String, code: u16 },
    KeyPress { key: String, code: u16, hold_time_ms: u32 },
}

pub enum MacroEventV {
    Delay(u64),
    MouseMove { x: CoordV, y: CoordV },
    Click { position: MousePositionV, button: MacroButton, jitter: u32, hold_time_ms: u32 },
    MouseDown { position: MousePositionV, button: MacroButton, jitter: u32 },
    MouseUp { position: MousePositionV, button: MacroButton, jitter: u32 },
    Scroll { dx: i32, dy: i32 },
    KeyDown { key: Seq<char>, code: u16 },
    KeyUp { key: Seq<char>, code: u16 },
    KeyPress { key: Seq<char>, code: u16, hold_time_ms: u32 },
}

impl View for MacroEvent {
    type V = MacroEventV;

    open spec fn view(&self) -> MacroEventV {
        match self {
            MacroEvent::Delay(us) => MacroEventV::Delay(*us),
            MacroEvent::MouseMove { x, y } => MacroEventV::MouseMove { x: x@, y: y@ },
            MacroEvent::Click { position, button, jitter, hold_time_ms } => MacroEventV::Click {
                position: position@,
                button: *button,
                jitter: *jitter,
                hold_time_ms: *hold_time_ms,
            },
            MacroEvent::MouseDown { position, button, jitter } => MacroEventV::MouseDown {
                position: position@,
                button: *button,
                jitter: *jitter,
            },
            MacroEvent::MouseUp { position, button, jitter } => MacroEventV::MouseUp {
                position: position@,
                button: *button,
                jitter: *jitter,
            },
            MacroEvent::Scroll { dx, dy } => MacroEventV::Scroll { dx: *dx, dy: *dy },
            MacroEvent::KeyDown { key, code } => MacroEventV::KeyDown { key: key@, code: *code },
            MacroEvent::KeyUp { key, code } => MacroEventV::KeyUp { key: key@, code: *code },
            MacroEvent::KeyPress { key, code, hold_time_ms } => MacroEventV::KeyPress {
                key: key@,
                code: *code,
                hold_time_ms: *hold_time_ms,
            },
        }
    }
}

impl MacroEventV {
    pub open spec fn delay_us(self) -> u64 {
        match self {
            MacroEventV::Delay(us) => us,
            _ => 0,
        }
    }
}

impl MacroEvent {
    /// The recorded pause in microseconds; 0 for every event that is not a pause.
    pub fn delay_us(&self) -> (us: u64)
        ensures
            us == self@.delay_us(),
    {
        match self {
            MacroEvent::Delay(us) => *us,
            _ => 0,
        }
    }

    pub fn duplicate(&self) -> (r: MacroEvent)
        ensures
            r@ == self@,
    {
        match self {
            MacroEvent::Delay(us) => MacroEvent::Delay(*us),
            MacroEvent::MouseMove { x, y } => MacroEvent::MouseMove {
                x: x.duplicate(),
                y: y.duplicate(),
            },
            MacroEvent::Click { position, button, jitter, hold_time_ms } => MacroEvent::Click {
                position: position.duplicate(),
                button: *button,
                jitter: *jitter,
                hold_time_ms: *hold_time_ms,
            },
            MacroEvent::MouseDown { position, button, jitter } => MacroEvent::MouseDown {
                position: position.duplicate(),
                button: *button,
                jitter: *jitter,
            },
            MacroEvent::MouseUp { position, button, jitter } => MacroEvent::MouseUp {
                position: position.duplicate(),
                button: *button,
                jitter: *jitter,
            },
            MacroEvent::Scroll { dx, dy } => MacroEvent::Scroll { dx: *dx, dy: *dy },
            MacroEvent::KeyDown { key, code } => MacroEvent::KeyDown {
                key: key.clone(),
                code: *code,
            },
            MacroEvent::KeyUp { key, code } => MacroEvent::KeyUp { key: key.clone(), code: *code },
            MacroEvent::KeyPress { key, code, hold_time_ms } => MacroEvent::KeyPress {
                key: key.clone(),
                code: *code,
                hold_time_ms: *hold_time_ms,
            },
        }
    }
}

// ---------------------------------------------------------------------------
// hardware events and the daemon protocol
// ---------------------------------------------------------------------------
/// What the input daemon observed.
#[derive(Debug, Clone, PartialEq, Eq)]
pub enum HardwareEventKind {
    MouseMove,
    MouseDown(MacroButton),
    MouseUp(MacroButton),
    Scroll { dx: i32, dy: i32 },
    KeyDown(String, u16),
    KeyUp(String, u16),
}

/// An observed input event with its time, in nanoseconds since the Unix epoch.
#[derive(Debug, Clone, PartialEq, Eq)]
pub struct HardwareEvent {
    pub hardware_time_ns: u64,
    pub kind: HardwareEventKind,
}

/// A request from the GUI to the input daemon.
#[derive(Debug, Clone, PartialEq, Eq)]
pub enum DaemonRequest {
    MoveTo { x: i32, y: i32 },
    Press { button: ClickButton },
    Release { button: ClickButton },
    Scroll { dx: i32, dy: i32 },
    Click {
        target_x: i32,
        target_y: i32,
        current_x: i32,
        current_y: i32,
        button: ClickButton,
        click_type: ClickType,
        hold_duration_ms: u64,
        move_cursor: bool,
    },
    KeyDown { key: String, code: u16 },
    KeyUp { key: String, code: u16 },
    StartRecording,
    StopRecording,
}

/// A reply from the daemon.
#[derive(Debug, Clone, PartialEq, Eq)]
pub enum DaemonResponse {
    HardwareInput(HardwareEvent),
    HotkeyTriggered(u16),
}

/// What the daemon forwards to the GUI.
#[derive(Debug, Clone, PartialEq, Eq)]
pub enum DaemonEvent {
    Recorded(HardwareEvent),
    Hotkey(HotkeyEvent),
}

// ---------------------------------------------------------------------------
// values, operands and comparisons
// ---------------------------------------------------------------------------
/// A literal value written in a script: a whole number or text.
#[derive(Debug, Clone, PartialEq, Eq)]
pub enum Value {
    Number(i64),
    Text(String),
}

pub enum ValueV {
    Number(i64),
    Text(Seq<char>),
}

impl View for Value {
    type V = ValueV;

    open spec fn view(&self) -> ValueV {
        match self {
            Value::Number(n) => ValueV::Number(*n),
            Value::Text(s) => ValueV::Text(s@),
        }
    }
}

impl Value {
    pub fn duplicate(&self) -> (r: Value)
        ensures
            r@ == self@,
    {
        match self {
            Value::Number(n) => Value::Number(*n),
            Value::Text(s) => Value::Text(s.clone()),
        }
    }
}

/// A value for variable commands: a literal or a `$` variable reference.
#[derive(Debug, Clone, PartialEq, Eq)]
pub enum Operand {
    Var(String),
    Literal(Value),
}

pub enum OperandV {
    Var(Seq<char>),
    Literal(ValueV),
}

impl View for Operand {
    type V = OperandV;

    open spec fn view(&self) -> OperandV {
        match self {
            Operand::Var(s) => OperandV::Var(s@),
            Operand::Literal(v) => OperandV::Literal(v@),
        }
    }
}

impl Operand {
    pub fn duplicate(&self) -> (r: Operand)
        ensures
            r@ == self@,
    {
        match self {
            Operand::Var(s) => Operand::Var(s.clone()),
            Operand::Literal(v) => Operand::Literal(v.duplicate()),
        }
    }
}

/// The comparison of an `IfCompare` command.
#[derive(Debug, Clone, Copy, PartialEq, Eq, Structural)]
pub enum CompareOp {
    Eq,
    Ne,
    Lt,
    Le,
    Gt,
    Ge,
    Contains,
}

impl CompareOp {
    pub open spec fn spec_symbol(self) -> Seq<char> {
        match self {
            CompareOp::Eq => "=="@,
            CompareOp::Ne => "!="@,
            CompareOp::Lt => "<"@,
            CompareOp::Le => "<="@,
            CompareOp::Gt => ">"@,
            CompareOp::Ge => ">="@,
            CompareOp::Contains => "contains"@,
        }
    }

    /// The operator as written in scripts.
    pub fn symbol(&self) -> (s: &'static str)
        ensures
            s@ == self.spec_symbol(),
    {
        match self {
            CompareOp::Eq => "==",
            CompareOp::Ne => "!=",
            CompareOp::Lt => "<",
            CompareOp::Le => "<=",
            CompareOp::Gt => ">",
            CompareOp::Ge => ">=",
            CompareOp::Contains => "contains",
        }
    }
}

} // verus!

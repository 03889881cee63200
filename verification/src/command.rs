//! Macro commands and whole macros.
use vstd::prelude::*;
use crate::types::{
    CompareOp, Coord, CoordV, MacroEvent, MacroEventV, Operand, OperandV,
};

verus! {

/// The format version that `serialize` writes.
pub const CURRENT_FORMAT_VERSION: u8 = 8;

pub type Region = (i32, i32, i32, i32);

pub open spec fn opt_view(o: Option<String>) -> Option<Seq<char>> {
    match o {
        Some(s) => Some(s@),
        None => None,
    }
}

/// One step of a macro: an input action or a flow-control, variable or effect command.
#[derive(Debug, Clone, PartialEq, Eq)]
pub enum MacroCommand {
    Action(MacroEvent),
    IfPixelColor { x: Coord, y: Coord, r: u8, g: u8, b: u8, tolerance: u8 },
    /// `similarity_threshold` keeps the decimal exactly as the script writes it;
    /// the image matcher reads it as a number when the command runs.
    IfImageFound {
        target_image_path: String,
        similarity_threshold: String,
        move_cursor_if_found: bool,
        trigger_if_not_found: bool,
        region: Option<Region>,
        store_x: Option<String>,
        store_y: Option<String>,
    },
    /// Searches `region` (None = whole screen) for the largest connected region
    /// within `tolerance` (0-100, Euclidean RGB distance) of (r,g,b).
    IfColorFound {
        region: Option<Region>,
        r: u8,
        g: u8,
        b: u8,
        tolerance: u8,
        min_width: u32,
        min_height: u32,
        move_cursor_if_found: bool,
        store_x: Option<String>,
        store_y: Option<String>,
        store_w: Option<String>,
        store_h: Option<String>,
    },
    Else,
    EndIf,
    Loop { count: Operand },
    EndLoop,
    PlayMacro(String),
    Label(String),
    Goto(String),
    TypeText(String),
    OpenFile { path: String, args: String, run_as_admin: bool },
    SetVariable { target: String, value: Operand },
    Calculate { target: String, expression: String },
    IfCompare { left: Operand, op: CompareOp, right: Operand },
    Delay { duration_ms: Operand },
    SetClipboard { text: Operand },
    GetClipboard { target: String },
    Comment(String),
}

pub enum MacroCommandV {
    Action(MacroEventV),
    IfPixelColor { x: CoordV, y: CoordV, r: u8, g: u8, b: u8, tolerance: u8 },
    IfImageFound {
        target_image_path: Seq<char>,
        similarity_threshold: Seq<char>,
        move_cursor_if_found: bool,
        trigger_if_not_found: bool,
        region: Option<Region>,
        store_x: Option<Seq<char>>,
        store_y: Option<Seq<char>>,
    },
    IfColorFound {
        region: Option<Region>,
        r: u8,
        g: u8,
        b: u8,
        tolerance: u8,
        min_width: u32,
        min_height: u32,
        move_cursor_if_found: bool,
        store_x: Option<Seq<char>>,
        store_y: Option<Seq<char>>,
        store_w: Option<Seq<char>>,
        store_h: Option<Seq<char>>,
    },
    Else,
    EndIf,
    Loop { count: OperandV },
    EndLoop,
    PlayMacro(Seq<char>),
    Label(Seq<char>),
    Goto(Seq<char>),
    TypeText(Seq<char>),
    OpenFile { path: Seq<char>, args: Seq<char>, run_as_admin: bool },
    SetVariable { target: Seq<char>, value: OperandV },
    Calculate { target: Seq<char>, expression: Seq<char> },
    IfCompare { left: OperandV, op: CompareOp, right: OperandV },
    Delay { duration_ms: OperandV },
    SetClipboard { text: OperandV },
    GetClipboard { target: Seq<char> },
    Comment(Seq<char>),
}

impl View for MacroCommand {
    type V = MacroCommandV;

    open spec fn view(&self) -> MacroCommandV {
        match self {
            MacroCommand::Action(e) => MacroCommandV::Action(e@),
            MacroCommand::IfPixelColor { x, y, r, g, b, tolerance } => MacroCommandV::IfPixelColor {
                x: x@,
                y: y@,
                r: *r,
                g: *g,
                b: *b,
                tolerance: *tolerance,
            },
            MacroCommand::IfImageFound {
                target_image_path,
                similarity_threshold,
                move_cursor_if_found,
                trigger_if_not_found,
                region,
                store_x,
                store_y,
            } => MacroCommandV::IfImageFound {
                target_image_path: target_image_path@,
                similarity_threshold: similarity_threshold@,
                move_cursor_if_found: *move_cursor_if_found,
                trigger_if_not_found: *trigger_if_not_found,
                region: *region,
                store_x: opt_view(*store_x),
                store_y: opt_view(*store_y),
            },
            MacroCommand::IfColorFound {
                region,
                r,
                g,
                b,
                tolerance,
                min_width,
                min_height,
                move_cursor_if_found,
                store_x,
                store_y,
                store_w,
                store_h,
            } => MacroCommandV::IfColorFound {
                region: *region,
                r: *r,
                g: *g,
                b: *b,
                tolerance: *tolerance,
                min_width: *min_width,
                min_height: *min_height,
                move_cursor_if_found: *move_cursor_if_found,
                store_x: opt_view(*store_x),
                store_y: opt_view(*store_y),
                store_w: opt_view(*store_w),
                store_h: opt_view(*store_h),
            },
            MacroCommand::Else => MacroCommandV::Else,
            MacroCommand::EndIf => MacroCommandV::EndIf,
            MacroCommand::Loop { count } => MacroCommandV::Loop { count: count@ },
            MacroCommand::EndLoop => MacroCommandV::EndLoop,
            MacroCommand::PlayMacro(p) => MacroCommandV::PlayMacro(p@),
            MacroCommand::Label(n) => MacroCommandV::Label(n@),
            MacroCommand::Goto(t) => MacroCommandV::Goto(t@),
            MacroCommand::TypeText(t) => MacroCommandV::TypeText(t@),
            MacroCommand::OpenFile { path, args, run_as_admin } => MacroCommandV::OpenFile {
                path: path@,
                args: args@,
                run_as_admin: *run_as_admin,
            },
            MacroCommand::SetVariable { target, value } => MacroCommandV::SetVariable {
                target: target@,
                value: value@,
            },
            MacroCommand::Calculate { target, expression } => MacroCommandV::Calculate {
                target: target@,
                expression: expression@,
            },
            MacroCommand::IfCompare { left, op, right } => MacroCommandV::IfCompare {
                left: left@,
                op: *op,
                right: right@,
            },
            MacroCommand::Delay { duration_ms } => MacroCommandV::Delay {
                duration_ms: duration_ms@,
            },
            MacroCommand::SetClipboard { text } => MacroCommandV::SetClipboard { text: text@ },
            MacroCommand::GetClipboard { target } => MacroCommandV::GetClipboard {
                target: target@,
            },
            MacroCommand::Comment(t) => MacroCommandV::Comment(t@),
        }
    }
}

/// A named list of commands in a given format version.
#[derive(Debug, Clone, PartialEq, Eq)]
pub struct Macro {
    pub name: String,
    pub version: u8,
    pub commands: Vec<MacroCommand>,
}

pub struct MacroV {
    pub name: Seq<char>,
    pub version: u8,
    pub commands: Seq<MacroCommandV>,
}

pub open spec fn commands_view(cmds: Seq<MacroCommand>) -> Seq<MacroCommandV> {
    cmds.map_values(|c: MacroCommand| c@)
}

impl View for Macro {
    type V = MacroV;

    open spec fn view(&self) -> MacroV {
        MacroV { name: self.name@, version: self.version, commands: commands_view(self.commands@) }
    }
}

/// The recorded pause of a command: the delay of an `Action(Delay(..))`, else 0.
pub open spec fn command_delay_us(c: MacroCommandV) -> int {
    match c {
        MacroCommandV::Action(e) => e.delay_us() as int,
        _ => 0,
    }
}

/// Sum of the recorded pauses of `cmds`.
pub open spec fn total_delay_us(cmds: Seq<MacroCommandV>) -> int
    decreases cmds.len(),
{
    if cmds.len() == 0 {
        0
    } else {
        total_delay_us(cmds.drop_last()) + command_delay_us(cmds.last())
    }
}

proof fn lemma_total_delay_monotone(cmds: Seq<MacroCommandV>, i: int)
    requires
        0 <= i <= cmds.len(),
    ensures
        0 <= total_delay_us(cmds.take(i)) <= total_delay_us(cmds),
    decreases cmds.len(),
{
    if cmds.len() > 0 {
        if i < cmds.len() {
            lemma_total_delay_monotone(cmds.drop_last(), i);
            assert(cmds.drop_last().take(i) == cmds.take(i));
        } else {
            assert(cmds.take(i) == cmds);
            lemma_total_delay_monotone(cmds.drop_last(), i - 1);
            assert(cmds.drop_last().take(i - 1) == cmds.drop_last());
        }
    }
}

/// The total pause of two command lists one after the other is the sum of
/// their totals; a `Delay` action adds exactly its pause and every other
/// command adds nothing.
pub proof fn lemma_total_delay_laws(a: Seq<MacroCommandV>, b: Seq<MacroCommandV>, c: MacroCommandV)
    ensures
        total_delay_us(a + b) == total_delay_us(a) + total_delay_us(b),
        total_delay_us(seq![c]) == (match c {
            MacroCommandV::Action(MacroEventV::Delay(us)) => us as int,
            _ => 0,
        }),
    decreases b.len(),
{
    if b.len() == 0 {
        assert(a + b =~= a);
    } else {
        assert((a + b).drop_last() =~= a + b.drop_last());
        assert((a + b).last() == b.last());
        lemma_total_delay_laws(a, b.drop_last(), c);
    }
    assert(seq![c].drop_last() =~= Seq::<MacroCommandV>::empty());
    assert(total_delay_us(seq![c].drop_last()) == 0);
    assert(total_delay_us(seq![c]) == command_delay_us(c));
}

impl Macro {
    /// An empty macro with the current format version.
    pub fn new(name: String) -> (m: Macro)
        ensures
            m@.name == name@,
            m@.version == CURRENT_FORMAT_VERSION,
            m@.commands.len() == 0,
    {
        let m = Macro { name, version: CURRENT_FORMAT_VERSION, commands: Vec::new() };
        assert(m@.commands =~= Seq::<MacroCommandV>::empty());
        m
    }

    /// Total recorded pause in microseconds.
    pub fn total_duration_us(&self) -> (us: u64)
        requires
            total_delay_us(self@.commands) <= u64::MAX,
        ensures
            us == total_delay_us(self@.commands),
    {
        let mut total: u64 = 0;
        let mut i: usize = 0;
        while i < self.commands.len()
            invariant
                i <= self.commands.len(),
                total_delay_us(self@.commands) <= u64::MAX,
                total == total_delay_us(self@.commands.take(i as int)),
            decreases self.commands.len() - i,
        {
            let d = match &self.commands[i] {
                MacroCommand::Action(ev) => ev.delay_us(),
                _ => 0,
            };
            proof {
                let cs = self@.commands;
                assert(cs.take(i + 1).drop_last() == cs.take(i as int));
                assert(cs[i as int] == self.commands@[i as int]@);
                lemma_total_delay_monotone(cs, i + 1);
            }
            total = total + d;
            i = i + 1;
        }
        assert(self@.commands.take(i as int) == self@.commands);
        total
    }

    /// Total recorded pause in whole milliseconds.
    pub fn total_duration_ms(&self) -> (ms: u64)
        requires
            total_delay_us(self@.commands) <= u64::MAX,
        ensures
            ms == total_delay_us(self@.commands) / 1000,
    {
        self.total_duration_us() / 1000
    }
}

} // verus!

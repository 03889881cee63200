//! One step of playback: what a command does to the frame, and which outside
//! work (input, screen checks, files, clipboard, variables) it asks for.
use vstd::prelude::*;
use crate::types::{CompareOp, Coord, CoordV, MacroEvent, MacroEventV, Operand, OperandV};
use crate::command::{MacroCommand, MacroCommandV, Region, opt_view};
use crate::flow::{
    ExecFrame, FlowControl, ScanKind, scan_target, last_label, end_loop_step, execute_goto,
    execute_else, execute_loop_cmd, execute_end_loop,
};
use crate::values::{resolve_num, spec_resolve_num, num_entries};
use crate::playback::{resolve_coord, spec_resolve_coord};

verus! {

/// Outside work a command asks the player for. After it, the player goes on
/// as the returned [`FlowControl`] says, unless the work fails.
#[derive(Debug)]
pub enum CommandEffect {
    /// Nothing beyond the frame change.
    NoEffect,
    /// Wait for the event's recorded gap, then play it.
    Dispatch(MacroEvent),
    /// Load and play a nested macro (see [`begin_nested_macro`]).
    PlayMacro(String),
    /// Type the text with variables interpolated.
    TypeText(String),
    /// Compare the screen pixel at `(x, y)` with a color, then [`crate::dispatch::apply_condition`].
    CheckPixel { x: i32, y: i32, r: u8, g: u8, b: u8, tolerance: u8 },
    /// Search the screen for an image.
    FindImage {
        path: String,
        threshold: String,
        move_cursor: bool,
        trigger_if_not_found: bool,
        region: Option<Region>,
        store_x: Option<String>,
        store_y: Option<String>,
    },
    /// Search the screen for a color region.
    FindColor {
        region: Option<Region>,
        r: u8,
        g: u8,
        b: u8,
        tolerance: u8,
        min_width: u32,
        min_height: u32,
        move_cursor: bool,
        store_x: Option<String>,
        store_y: Option<String>,
        store_w: Option<String>,
        store_h: Option<String>,
    },
    /// Wait this many microseconds of wall-clock time.
    Wait(u64),
    OpenFile { path: String, args: String, run_as_admin: bool },
    SetVariable { target: String, value: Operand },
    Calculate { target: String, expression: String },
    /// Compare two operands, then [`crate::flow::execute_if_compare`].
    Compare { left: Operand, op: CompareOp, right: Operand },
    SetClipboard(Operand),
    GetClipboard(String),
}

pub enum CommandEffectV {
    NoEffect,
    Dispatch(MacroEventV),
    PlayMacro(Seq<char>),
    TypeText(Seq<char>),
    CheckPixel { x: i32, y: i32, r: u8, g: u8, b: u8, tolerance: u8 },
    FindImage {
        path: Seq<char>,
        threshold: Seq<char>,
        move_cursor: bool,
        trigger_if_not_found: bool,
        region: Option<Region>,
        store_x: Option<Seq<char>>,
        store_y: Option<Seq<char>>,
    },
    FindColor {
        region: Option<Region>,
        r: u8,
        g: u8,
        b: u8,
        tolerance: u8,
        min_width: u32,
        min_height: u32,
        move_cursor: bool,
        store_x: Option<Seq<char>>,
        store_y: Option<Seq<char>>,
        store_w: Option<Seq<char>>,
        store_h: Option<Seq<char>>,
    },
    Wait(u64),
    OpenFile { path: Seq<char>, args: Seq<char>, run_as_admin: bool },
    SetVariable { target: Seq<char>, value: OperandV },
    Calculate { target: Seq<char>, expression: Seq<char> },
    Compare { left: OperandV, op: CompareOp, right: OperandV },
    SetClipboard(OperandV),
    GetClipboard(Seq<char>),
}

impl View for CommandEffect {
    type V = CommandEffectV;

    open spec fn view(&self) -> CommandEffectV {
        match self {
            CommandEffect::NoEffect => CommandEffectV::NoEffect,
            CommandEffect::Dispatch(e) => CommandEffectV::Dispatch(e@),
            CommandEffect::PlayMacro(p) => CommandEffectV::PlayMacro(p@),
            CommandEffect::TypeText(t) => CommandEffectV::TypeText(t@),
            CommandEffect::CheckPixel { x, y, r, g, b, tolerance } => CommandEffectV::CheckPixel {
                x: *x,
                y: *y,
                r: *r,
                g: *g,
                b: *b,
                tolerance: *tolerance,
            },
            CommandEffect::FindImage {
                path,
                threshold,
                move_cursor,
                trigger_if_not_found,
                region,
                store_x,
                store_y,
            } => CommandEffectV::FindImage {
                path: path@,
                threshold: threshold@,
                move_cursor: *move_cursor,
                trigger_if_not_found: *trigger_if_not_found,
                region: *region,
                store_x: opt_view(*store_x),
                store_y: opt_view(*store_y),
            },
            CommandEffect::FindColor {
                region,
                r,
                g,
                b,
                tolerance,
                min_width,
                min_height,
                move_cursor,
                store_x,
                store_y,
                store_w,
                store_h,
            } => CommandEffectV::FindColor {
                region: *region,
                r: *r,
                g: *g,
                b: *b,
                tolerance: *tolerance,
                min_width: *min_width,
                min_height: *min_height,
                move_cursor: *move_cursor,
                store_x: opt_view(*store_x),
                store_y: opt_view(*store_y),
                store_w: opt_view(*store_w),
                store_h: opt_view(*store_h),
            },
            CommandEffect::Wait(us) => CommandEffectV::Wait(*us),
            CommandEffect::OpenFile { path, args, run_as_admin } => CommandEffectV::OpenFile {
                path: path@,
                args: args@,
                run_as_admin: *run_as_admin,
            },
            CommandEffect::SetVariable { target, value } => CommandEffectV::SetVariable {
                target: target@,
                value: value@,
            },
            CommandEffect::Calculate { target, expression } => CommandEffectV::Calculate {
                target: target@,
                expression: expression@,
            },
            CommandEffect::Compare { left, op, right } => CommandEffectV::Compare {
                left: left@,
                op: *op,
                right: right@,
            },
            CommandEffect::SetClipboard(o) => CommandEffectV::SetClipboard(o@),
            CommandEffect::GetClipboard(t) => CommandEffectV::GetClipboard(t@),
        }
    }
}

/// A count or duration operand as a non-negative number.
pub open spec fn non_negative(n: i64) -> u64 {
    if n < 0 {
        0
    } else {
        n as u64
    }
}

/// Milliseconds as microseconds, saturating.
pub open spec fn ms_to_us(ms: u64) -> u64 {
    if ms * 1000 > u64::MAX {
        u64::MAX
    } else {
        (ms * 1000) as u64
    }
}

/// The outside work a command asks for.
pub open spec fn spec_effect(c: MacroCommandV, nums: Seq<(Seq<char>, i64)>, loop_num: u32) -> CommandEffectV {
    match c {
        MacroCommandV::Action(e) => CommandEffectV::Dispatch(e),
        MacroCommandV::PlayMacro(p) => CommandEffectV::PlayMacro(p),
        MacroCommandV::TypeText(t) => CommandEffectV::TypeText(t),
        MacroCommandV::IfPixelColor { x, y, r, g, b, tolerance } => CommandEffectV::CheckPixel {
            x: spec_resolve_coord(x, nums),
            y: spec_resolve_coord(y, nums),
            r,
            g,
            b,
            tolerance,
        },
        MacroCommandV::IfImageFound {
            target_image_path,
            similarity_threshold,
            move_cursor_if_found,
            trigger_if_not_found,
            region,
            store_x,
            store_y,
        } => CommandEffectV::FindImage {
            path: target_image_path,
            threshold: similarity_threshold,
            move_cursor: move_cursor_if_found,
            trigger_if_not_found,
            region,
            store_x,
            store_y,
        },
        MacroCommandV::IfColorFound {
            region,
            r,
            g,
            b,
            tolerance,
            min_width,
            min_height,
            move_cursor_if_found,
            store_x,
            store_y,
            store_w,
            store_h,
        } => CommandEffectV::FindColor {
            region,
            r,
            g,
            b,
            tolerance,
            min_width,
            min_height,
            move_cursor: move_cursor_if_found,
            store_x,
            store_y,
            store_w,
            store_h,
        },
        MacroCommandV::Delay { duration_ms } => CommandEffectV::Wait(
            ms_to_us(non_negative(spec_resolve_num(duration_ms, nums))),
        ),
        MacroCommandV::OpenFile { path, args, run_as_admin } => if loop_num == 1 {
            CommandEffectV::OpenFile { path, args, run_as_admin }
        } else {
            CommandEffectV::NoEffect
        },
        MacroCommandV::SetVariable { target, value } => CommandEffectV::SetVariable { target, value },
        MacroCommandV::Calculate { target, expression } => CommandEffectV::Calculate { target, expression },
        MacroCommandV::IfCompare { left, op, right } => CommandEffectV::Compare { left, op, right },
        MacroCommandV::SetClipboard { text } => CommandEffectV::SetClipboard(text),
        MacroCommandV::GetClipboard { target } => CommandEffectV::GetClipboard(target),
        _ => CommandEffectV::NoEffect,
    }
}

/// A pixel check looks at the point the command names: its column is the
/// command's `x` and its row the command's `y`, each resolved against the
/// variables (a constant as written, a variable by its last value), with the
/// command's color and tolerance; the pass number plays no part.
pub proof fn lemma_pixel_check_at_command_point(
    x: CoordV,
    y: CoordV,
    r: u8,
    g: u8,
    b: u8,
    tolerance: u8,
    nums: Seq<(Seq<char>, i64)>,
    loop_num: u32,
)
    ensures
        match spec_effect(MacroCommandV::IfPixelColor { x, y, r, g, b, tolerance }, nums, loop_num) {
            CommandEffectV::CheckPixel { x: px, y: py, r: pr, g: pg, b: pb, tolerance: pt } => {
                &&& px == spec_resolve_coord(x, nums)
                &&& py == spec_resolve_coord(y, nums)
                &&& (x matches CoordV::Const(cx) ==> px == cx)
                &&& (y matches CoordV::Const(cy) ==> py == cy)
                &&& pr == r && pg == g && pb == b && pt == tolerance
            },
            _ => false,
        },
        spec_effect(MacroCommandV::IfPixelColor { x, y, r, g, b, tolerance }, nums, loop_num) == spec_effect(
            MacroCommandV::IfPixelColor { x, y, r, g, b, tolerance },
            nums,
            1,
        ),
{
}

/// A delay waits its duration, resolved against the variables, counted in
/// microseconds: a thousand for each millisecond, nothing for a negative
/// duration, the longest wait when the product does not fit. A file is
/// opened, as the command names it, on the first pass over the macro only.
/// Flow commands, labels and comments ask for no outside work.
pub proof fn lemma_delay_open_and_flow_effects(c: MacroCommandV, nums: Seq<(Seq<char>, i64)>, loop_num: u32)
    ensures
        match c {
            MacroCommandV::Delay { duration_ms } => match spec_effect(c, nums, loop_num) {
                CommandEffectV::Wait(us) => {
                    let n = spec_resolve_num(duration_ms, nums);
                    &&& n <= 0 ==> us == 0
                    &&& 0 < n && n * 1000 <= u64::MAX ==> us == n * 1000
                    &&& n * 1000 > u64::MAX ==> us == u64::MAX
                },
                _ => false,
            },
            MacroCommandV::OpenFile { path, args, run_as_admin } => match spec_effect(c, nums, loop_num) {
                CommandEffectV::OpenFile { path: p, args: a, run_as_admin: admin } => loop_num == 1 && p == path
                    && a == args && admin == run_as_admin,
                CommandEffectV::NoEffect => loop_num != 1,
                _ => false,
            },
            _ => true,
        },
        c is Goto || c is Label || c is Comment || c is Else || c is EndIf || c is Loop || c is EndLoop
            ==> spec_effect(c, nums, loop_num) == CommandEffectV::NoEffect,
{
}

/// Every other command asks for the work it names, with its own data in
/// place: an action is played as recorded; text is typed and macros are
/// played by the names given; an image search uses the command's file,
/// threshold, region, stores and flags; a color search the command's color,
/// tolerance, region, least width and least height (in that order) and
/// stores; a comparison keeps its left side on the left and its right side
/// on the right; variables, calculations and the clipboard get the
/// command's target and value.
pub proof fn lemma_effects_carry_command_data(c: MacroCommandV, nums: Seq<(Seq<char>, i64)>, loop_num: u32)
    ensures
        match (c, spec_effect(c, nums, loop_num)) {
            (MacroCommandV::Action(e), CommandEffectV::Dispatch(d)) => d == e,
            (MacroCommandV::Action(_), _) => false,
            (MacroCommandV::TypeText(t), CommandEffectV::TypeText(u)) => u == t,
            (MacroCommandV::TypeText(_), _) => false,
            (MacroCommandV::PlayMacro(p), CommandEffectV::PlayMacro(q)) => q == p,
            (MacroCommandV::PlayMacro(_), _) => false,
            (
                MacroCommandV::IfImageFound {
                    target_image_path,
                    similarity_threshold,
                    move_cursor_if_found,
                    trigger_if_not_found,
                    region,
                    store_x,
                    store_y,
                },
                CommandEffectV::FindImage {
                    path,
                    threshold,
                    move_cursor,
                    trigger_if_not_found: t,
                    region: rg,
                    store_x: sx,
                    store_y: sy,
                },
            ) => path == target_image_path && threshold == similarity_threshold && move_cursor == move_cursor_if_found
                && t == trigger_if_not_found && rg == region && sx == store_x && sy == store_y,
            (MacroCommandV::IfImageFound { .. }, _) => false,
            (
                MacroCommandV::IfColorFound {
                    region,
                    r,
                    g,
                    b,
                    tolerance,
                    min_width,
                    min_height,
                    move_cursor_if_found,
                    store_x,
                    store_y,
                    store_w,
                    store_h,
                },
                CommandEffectV::FindColor {
                    region: rg,
                    r: fr,
                    g: fg,
                    b: fb,
                    tolerance: ft,
                    min_width: mw,
                    min_height: mh,
                    move_cursor,
                    store_x: sx,
                    store_y: sy,
                    store_w: sw,
                    store_h: sh,
                },
            ) => rg == region && fr == r && fg == g && fb == b && ft == tolerance && mw == min_width && mh == min_height
                && move_cursor == move_cursor_if_found && sx == store_x && sy == store_y && sw == store_w && sh == store_h,
            (MacroCommandV::IfColorFound { .. }, _) => false,
            (MacroCommandV::IfCompare { left, op, right }, CommandEffectV::Compare { left: l, op: o, right: rt }) => l
                == left && o == op && rt == right,
            (MacroCommandV::IfCompare { .. }, _) => false,
            (MacroCommandV::SetVariable { target, value }, CommandEffectV::SetVariable { target: t, value: v }) => t
                == target && v == value,
            (MacroCommandV::SetVariable { .. }, _) => false,
            (MacroCommandV::Calculate { target, expression }, CommandEffectV::Calculate { target: t, expression: x }) => t
                == target && x == expression,
            (MacroCommandV::Calculate { .. }, _) => false,
            (MacroCommandV::SetClipboard { text }, CommandEffectV::SetClipboard(t)) => t == text,
            (MacroCommandV::SetClipboard { .. }, _) => false,
            (MacroCommandV::GetClipboard { target }, CommandEffectV::GetClipboard(t)) => t == target,
            (MacroCommandV::GetClipboard { .. }, _) => false,
            _ => true,
        },
{
}

fn dup_string(s: &String) -> (r: String)
    ensures
        r@ == s@,
{
    s.clone()
}

fn dup_opt(o: &Option<String>) -> (r: Option<String>)
    ensures
        opt_view(r) == opt_view(*o),
{
    match o {
        Some(s) => Some(s.clone()),
        None => None,
    }
}

/// Plays one command: flow commands move the frame's cursor and loop stack
/// here; every other command returns the outside work it asks for.
/// `nums` pairs each variable with its whole-number value; `loop_num`
/// counts the passes over the macro from 1.
pub fn process_command(cmd: &MacroCommand, frame: &mut ExecFrame, nums: &Vec<(String, i64)>, loop_num: u32) -> (r: (FlowControl, CommandEffect))
    requires
        old(frame).wf(),
    ensures
        r.1@ == spec_effect(cmd@, num_entries(nums@), loop_num),
        match cmd@ {
            MacroCommandV::IfPixelColor { x, y, r: pr, g: pg, b: pb, tolerance } => r.1@ == (CommandEffectV::CheckPixel {
                x: spec_resolve_coord(x, num_entries(nums@)),
                y: spec_resolve_coord(y, num_entries(nums@)),
                r: pr,
                g: pg,
                b: pb,
                tolerance: tolerance,
            }),
            _ => true,
        },
        final(frame).commands == old(frame).commands,
        final(frame).labels == old(frame).labels,
        match cmd@ {
            MacroCommandV::Goto(t) => final(frame).loop_stack == old(frame).loop_stack && match last_label(old(frame).cmds(), t) {
                Some(k) => final(frame).idx == k && r.0 == FlowControl::Jump,
                None => final(frame).idx == old(frame).idx && r.0 == FlowControl::Continue,
            },
            MacroCommandV::Else => final(frame).loop_stack == old(frame).loop_stack && r.0 == FlowControl::Continue
                && final(frame).idx == scan_target(old(frame).cmds(), old(frame).idx as int, 0, ScanKind::EndIf),
            MacroCommandV::Loop { count } => {
                let n = non_negative(spec_resolve_num(count, num_entries(nums@)));
                &&& r.0 == FlowControl::Continue
                &&& n == 0 ==> final(frame).idx == scan_target(old(frame).cmds(), old(frame).idx as int, 0, ScanKind::EndLoop)
                    && final(frame).loop_stack@ == old(frame).loop_stack@
                &&& n != 0 ==> final(frame).idx == old(frame).idx
                &&& n != 0 && old(frame).loop_stack@.len() > 0 && old(frame).loop_stack@.last().0 == old(frame).idx
                    ==> final(frame).loop_stack@ == old(frame).loop_stack@
                &&& n != 0 && !(old(frame).loop_stack@.len() > 0 && old(frame).loop_stack@.last().0 == old(frame).idx)
                    ==> final(frame).loop_stack@ == old(frame).loop_stack@.push((old(frame).idx, n))
            },
            MacroCommandV::EndLoop => final(frame).loop_stack@ == end_loop_step(old(frame).loop_stack@).0
                && match end_loop_step(old(frame).loop_stack@).1 {
                Some(start) => final(frame).idx == start && r.0 == FlowControl::Jump,
                None => final(frame).idx == old(frame).idx && r.0 == FlowControl::Continue,
            },
            _ => final(frame).idx == old(frame).idx && final(frame).loop_stack == old(frame).loop_stack
                && r.0 == FlowControl::Continue,
        },
{
    match cmd {
        MacroCommand::Action(event) => (FlowControl::Continue, CommandEffect::Dispatch(event.duplicate())),
        MacroCommand::PlayMacro(path) => (FlowControl::Continue, CommandEffect::PlayMacro(dup_string(path))),
        MacroCommand::Comment(_) => (FlowControl::Continue, CommandEffect::NoEffect),
        MacroCommand::Label(_) => (FlowControl::Continue, CommandEffect::NoEffect),
        MacroCommand::Goto(target) => (execute_goto(target.as_str(), frame), CommandEffect::NoEffect),
        MacroCommand::TypeText(text) => (FlowControl::Continue, CommandEffect::TypeText(dup_string(text))),
        MacroCommand::IfPixelColor { x, y, r, g, b, tolerance } => (
            FlowControl::Continue,
            CommandEffect::CheckPixel {
                x: resolve_coord(x, nums),
                y: resolve_coord(y, nums),
                r: *r,
                g: *g,
                b: *b,
                tolerance: *tolerance,
            },
        ),
        MacroCommand::IfImageFound {
            target_image_path,
            similarity_threshold,
            move_cursor_if_found,
            trigger_if_not_found,
            region,
            store_x,
            store_y,
        } => (
            FlowControl::Continue,
            CommandEffect::FindImage {
                path: dup_string(target_image_path),
                threshold: dup_string(similarity_threshold),
                move_cursor: *move_cursor_if_found,
                trigger_if_not_found: *trigger_if_not_found,
                region: *region,
                store_x: dup_opt(store_x),
                store_y: dup_opt(store_y),
            },
        ),
        MacroCommand::IfColorFound {
            region,
            r,
            g,
            b,
            tolerance,
            min_width,
            min_height,
            move_cursor_if_found,
            store_x,
            store_y,
            store_w,
            store_h,
        } => (
            FlowControl::Continue,
            CommandEffect::FindColor {
                region: *region,
                r: *r,
                g: *g,
                b: *b,
                tolerance: *tolerance,
                min_width: *min_width,
                min_height: *min_height,
                move_cursor: *move_cursor_if_found,
                store_x: dup_opt(store_x),
                store_y: dup_opt(store_y),
                store_w: dup_opt(store_w),
                store_h: dup_opt(store_h),
            },
        ),
        MacroCommand::Else => (execute_else(frame), CommandEffect::NoEffect),
        MacroCommand::EndIf => (FlowControl::Continue, CommandEffect::NoEffect),
        MacroCommand::Loop { count } => {
            let n = resolve_num(count, nums);
            let passes: u64 = if n < 0 {
                0
            } else {
                n as u64
            };
            (execute_loop_cmd(passes, frame), CommandEffect::NoEffect)
        },
        MacroCommand::Delay { duration_ms } => {
            let n = resolve_num(duration_ms, nums);
            let ms: u64 = if n < 0 {
                0
            } else {
                n as u64
            };
            let us: u64 = if ms > u64::MAX / 1000 {
                u64::MAX
            } else {
                ms * 1000
            };
            (FlowControl::Continue, CommandEffect::Wait(us))
        },
        MacroCommand::EndLoop => (execute_end_loop(frame), CommandEffect::NoEffect),
        MacroCommand::OpenFile { path, args, run_as_admin } => {
            if loop_num == 1 {
                (
                    FlowControl::Continue,
                    CommandEffect::OpenFile {
                        path: dup_string(path),
                        args: dup_string(args),
                        run_as_admin: *run_as_admin,
                    },
                )
            } else {
                (FlowControl::Continue, CommandEffect::NoEffect)
            }
        },
        MacroCommand::SetVariable { target, value } => (
            FlowControl::Continue,
            CommandEffect::SetVariable { target: dup_string(target), value: value.duplicate() },
        ),
        MacroCommand::Calculate { target, expression } => (
            FlowControl::Continue,
            CommandEffect::Calculate { target: dup_string(target), expression: dup_string(expression) },
        ),
        MacroCommand::IfCompare { left, op, right } => (
            FlowControl::Continue,
            CommandEffect::Compare { left: left.duplicate(), op: *op, right: right.duplicate() },
        ),
        MacroCommand::SetClipboard { text } => (FlowControl::Continue, CommandEffect::SetClipboard(text.duplicate())),
        MacroCommand::GetClipboard { target } => (FlowControl::Continue, CommandEffect::GetClipboard(dup_string(target))),
    }
}

/// A nested macro was loaded: the parent frame will resume after the
/// `PlayMacro` command, and the current frame ends.
pub fn begin_nested_macro(frame: &mut ExecFrame) -> (flow: FlowControl)
    requires
        old(frame).idx < usize::MAX,
    ensures
        final(frame).idx == old(frame).idx + 1,
        final(frame).commands == old(frame).commands,
        final(frame).loop_stack == old(frame).loop_stack,
        final(frame).labels == old(frame).labels,
        flow == FlowControl::BreakFrame,
{
    frame.idx = frame.idx + 1;
    FlowControl::BreakFrame
}

/// How the cursor moves after a command: on to the next command, or left
/// where a jump put it.
pub fn advance(frame: &mut ExecFrame, flow: FlowControl)
    requires
        flow == FlowControl::Continue ==> old(frame).idx < usize::MAX,
    ensures
        final(frame).commands == old(frame).commands,
        final(frame).loop_stack == old(frame).loop_stack,
        final(frame).labels == old(frame).labels,
        final(frame).idx == (if flow == FlowControl::Continue {
            (old(frame).idx + 1) as usize
        } else {
            old(frame).idx
        }),
{
    if flow == FlowControl::Continue {
        frame.idx = frame.idx + 1;
    }
}

} // verus!

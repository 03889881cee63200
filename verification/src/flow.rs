//! Flow control of macro playback: the cursor over a command list, the
//! forward scans behind `If`/`Else`/`Loop`, labels and jumps.
use vstd::prelude::*;
use crate::text::{chars_of, chars_eq};
use crate::command::{MacroCommand, MacroCommandV, commands_view};

verus! {

/// How the player moves on after a command.
#[derive(Debug, Clone, Copy, PartialEq, Eq, Structural)]
pub enum FlowControl {
    /// Proceed to the next command; the caller advances the cursor.
    Continue,
    /// The cursor already points at the next command (a jump).
    Jump,
    /// Finish the current frame; the parent frame resumes from its saved index.
    BreakFrame,
    /// Abort playback entirely.
    Stop,
}

/// A command list being played: the cursor, the open loops (start index and
/// remaining passes, innermost last) and the labels found in the list.
pub struct ExecFrame {
    pub commands: Vec<MacroCommand>,
    pub idx: usize,
    pub loop_stack: Vec<(usize, u64)>,
    pub labels: Vec<(Vec<char>, usize)>,
}

// ---------------------------------------------------------------------------
// model
// ---------------------------------------------------------------------------
/// The `Label` commands of a list, in order, with their indices.
pub open spec fn label_entries(cmds: Seq<MacroCommandV>) -> Seq<(Seq<char>, int)>
    decreases cmds.len(),
{
    if cmds.len() == 0 {
        Seq::empty()
    } else {
        let prev = label_entries(cmds.drop_last());
        match cmds.last() {
            MacroCommandV::Label(n) => prev.push((n, cmds.len() - 1)),
            _ => prev,
        }
    }
}

/// The index of the last `Label` named `t`, which is the one a jump to `t` reaches.
pub open spec fn last_label(cmds: Seq<MacroCommandV>, t: Seq<char>) -> Option<int>
    decreases cmds.len(),
{
    if cmds.len() == 0 {
        None
    } else if cmds.last() == MacroCommandV::Label(t) {
        Some(cmds.len() - 1)
    } else {
        last_label(cmds.drop_last(), t)
    }
}

/// A jump to a label lands on a `Label` of that name, and on the last one:
/// no later command is a label of that name; with no such label there is
/// nowhere to land.
pub proof fn lemma_last_label_laws(cmds: Seq<MacroCommandV>, t: Seq<char>)
    ensures
        last_label(cmds, t) matches Some(k) ==> 0 <= k < cmds.len() && cmds[k] == MacroCommandV::Label(t) && forall|j: int|
            k < j < cmds.len() ==> #[trigger] cmds[j] != MacroCommandV::Label(t),
        last_label(cmds, t) is None ==> forall|j: int| 0 <= j < cmds.len() ==> #[trigger] cmds[j] != MacroCommandV::Label(t),
    decreases cmds.len(),
{
    if cmds.len() > 0 && cmds.last() != MacroCommandV::Label(t) {
        let prev = cmds.drop_last();
        lemma_last_label_laws(prev, t);
        assert forall|j: int| 0 <= j < prev.len() implies #[trigger] cmds[j] == prev[j] by {}
        assert(cmds[cmds.len() - 1] == cmds.last());
    }
}

/// Which closing command a forward scan looks for.
#[derive(Clone, Copy, PartialEq, Eq, Structural)]
pub enum ScanKind {
    /// The `Else` or `EndIf` of the current `If` (after a failed condition).
    ElseOrEndIf,
    /// The `EndIf` of the current block (after a taken branch reaches `Else`).
    EndIf,
    /// The `EndLoop` of the current loop (a loop that runs zero times).
    EndLoop,
}

/// Commands that open a nested block for the scan: every `If` command for
/// `If` scans, `Loop` for loop scans.
pub open spec fn opens_block(c: MacroCommandV, kind: ScanKind) -> bool {
    match kind {
        ScanKind::EndLoop => c is Loop,
        _ => c is IfPixelColor || c is IfImageFound || c is IfColorFound || c is IfCompare,
    }
}

pub open spec fn closes_block(c: MacroCommandV, kind: ScanKind) -> bool {
    match kind {
        ScanKind::EndLoop => c is EndLoop,
        _ => c is EndIf,
    }
}

/// Where a forward scan from `i` stops, `nested` blocks deep: at the first
/// closer (or, for `ElseOrEndIf`, `Else`) met at depth zero, or at the last
/// command when there is none.
pub open spec fn scan_target(cmds: Seq<MacroCommandV>, i: int, nested: nat, kind: ScanKind) -> int
    decreases cmds.len() - i,
{
    if i < 0 || i + 1 >= cmds.len() {
        i
    } else {
        let j = i + 1;
        let c = cmds[j];
        if opens_block(c, kind) {
            scan_target(cmds, j, nested + 1, kind)
        } else if kind is ElseOrEndIf && c is Else && nested == 0 {
            j
        } else if closes_block(c, kind) {
            if nested == 0 {
                j
            } else {
                scan_target(cmds, j, (nested - 1) as nat, kind)
            }
        } else {
            scan_target(cmds, j, nested, kind)
        }
    }
}

/// One `EndLoop` on a loop stack: the stack after it, and the index it jumps
/// back to when the innermost loop has passes left.
pub open spec fn end_loop_step(stack: Seq<(usize, u64)>) -> (Seq<(usize, u64)>, Option<usize>) {
    if stack.len() == 0 {
        (stack, None)
    } else {
        let (start, remaining) = stack.last();
        if remaining > 1 {
            (stack.drop_last().push((start, (remaining - 1) as u64)), Some(start))
        } else {
            (stack.drop_last(), None)
        }
    }
}

/// How many times `EndLoop` jumps back before the innermost loop is left.
pub open spec fn jumps_before_exit(stack: Seq<(usize, u64)>) -> nat
    decreases (if stack.len() == 0 { 0 } else { stack.last().1 as int }),
{
    match end_loop_step(stack) {
        (next, Some(_)) => 1 + jumps_before_exit(next),
        (_, None) => 0,
    }
}

impl ExecFrame {
    pub open spec fn cmds(&self) -> Seq<MacroCommandV> {
        commands_view(self.commands@)
    }

    pub open spec fn label_view(&self) -> Seq<(Seq<char>, int)> {
        self.labels@.map_values(|e: (Vec<char>, usize)| (e.0@, e.1 as int))
    }

    /// The label list is the one found in the commands.
    pub open spec fn wf(&self) -> bool {
        self.label_view() == label_entries(self.cmds())
    }
}

// ---------------------------------------------------------------------------
// laws of the model
// ---------------------------------------------------------------------------
proof fn lemma_label_entries_last(cmds: Seq<MacroCommandV>, t: Seq<char>, k: int)
    requires
        0 <= k <= label_entries(cmds).len(),
        forall|j: int| k <= j < label_entries(cmds).len() ==> #[trigger] label_entries(cmds)[j].0 != t,
    ensures
        k == 0 ==> last_label(cmds, t) is None,
        k > 0 && label_entries(cmds)[k - 1].0 == t ==> last_label(cmds, t) == Some(label_entries(cmds)[k - 1].1),
    decreases cmds.len(),
{
    if cmds.len() > 0 {
        let prev = cmds.drop_last();
        let e = label_entries(cmds);
        let pe = label_entries(prev);
        match cmds.last() {
            MacroCommandV::Label(n) => {
                assert(e == pe.push((n, cmds.len() - 1)));
                if k <= pe.len() {
                    assert(e[pe.len() as int].0 == n);
                    assert(n != t);
                    assert forall|j: int| k <= j < pe.len() implies #[trigger] pe[j].0 != t by {
                        assert(e[j] == pe[j]);
                    }
                    if k > 0 {
                        assert(e[k - 1] == pe[k - 1]);
                    }
                    lemma_label_entries_last(prev, t, k);
                }
            },
            _ => {
                lemma_label_entries_last(prev, t, k);
            },
        }
    }
}

/// A forward scan never moves back and stops inside the list: at its start,
/// at the last command, or on a closing command.
pub proof fn lemma_scan_target_bounds(cmds: Seq<MacroCommandV>, i: int, nested: nat, kind: ScanKind)
    requires
        0 <= i < cmds.len(),
    ensures
        i <= scan_target(cmds, i, nested, kind) < cmds.len(),
        i + 1 < cmds.len() ==> scan_target(cmds, i, nested, kind) > i,
        scan_target(cmds, i, nested, kind) == i || scan_target(cmds, i, nested, kind) == cmds.len()
            - 1 || closes_block(cmds[scan_target(cmds, i, nested, kind)], kind) || (kind is ElseOrEndIf
            && cmds[scan_target(cmds, i, nested, kind)] is Else),
    decreases cmds.len() - i,
{
    if i + 1 < cmds.len() {
        let j = i + 1;
        let c = cmds[j];
        if opens_block(c, kind) {
            lemma_scan_target_bounds(cmds, j, nested + 1, kind);
        } else if kind is ElseOrEndIf && c is Else && nested == 0 {
        } else if closes_block(c, kind) {
            if nested != 0 {
                lemma_scan_target_bounds(cmds, j, (nested - 1) as nat, kind);
            }
        } else {
            lemma_scan_target_bounds(cmds, j, nested, kind);
        }
    }
}

/// Whether a command is one of the conditions that open an `If` block.
pub open spec fn is_if_command(c: MacroCommandV) -> bool {
    ||| c is IfPixelColor
    ||| c is IfImageFound
    ||| c is IfColorFound
    ||| c is IfCompare
}

/// How a command changes the nesting depth of the blocks a scan of `kind`
/// counts: an `If` (a `Loop` for loop scans) goes one level in, an `EndIf`
/// (an `EndLoop`) one level out.
pub open spec fn depth_step(c: MacroCommandV, kind: ScanKind) -> int {
    match kind {
        ScanKind::EndLoop => if c is Loop {
            1
        } else if c is EndLoop {
            -1
        } else {
            0
        },
        _ => if is_if_command(c) {
            1
        } else if c is EndIf {
            -1
        } else {
            0
        },
    }
}

/// The nesting depth reached after the commands `a..b`, counted from zero.
pub open spec fn depth_between(cmds: Seq<MacroCommandV>, a: int, b: int, kind: ScanKind) -> int
    decreases b - a,
{
    if a >= b {
        0
    } else {
        depth_between(cmds, a, b - 1, kind) + depth_step(cmds[b - 1], kind)
    }
}

/// The commands a scan of `kind` may stop at: `Else` or `EndIf` after a
/// failed condition, `EndIf` after a taken branch, `EndLoop` for a loop.
pub open spec fn stops_scan(c: MacroCommandV, kind: ScanKind) -> bool {
    match kind {
        ScanKind::ElseOrEndIf => c is Else || c is EndIf,
        ScanKind::EndIf => c is EndIf,
        ScanKind::EndLoop => c is EndLoop,
    }
}

/// A stopping command met at depth zero after the start `i`.
pub open spec fn stops_at_depth_zero(cmds: Seq<MacroCommandV>, i: int, nested: nat, k: int, kind: ScanKind) -> bool {
    stops_scan(cmds[k], kind) && nested + depth_between(cmds, i + 1, k, kind) == 0
}

proof fn lemma_depth_between_front(cmds: Seq<MacroCommandV>, a: int, b: int, kind: ScanKind)
    requires
        a < b,
    ensures
        depth_between(cmds, a, b, kind) == depth_step(cmds[a], kind) + depth_between(cmds, a + 1, b, kind),
    decreases b - a,
{
    if a + 1 < b {
        lemma_depth_between_front(cmds, a, b - 1, kind);
    } else {
        assert(depth_between(cmds, a, a, kind) == 0);
        assert(depth_between(cmds, a + 1, b, kind) == 0);
    }
}

/// The scan from `i + 1` on, `inner` levels deep, seen from `i` with
/// `nested` levels, where the command at `i + 1` moved the depth from
/// `nested` to `inner`.
proof fn lemma_scan_depth_shift(cmds: Seq<MacroCommandV>, i: int, nested: nat, inner: nat, kind: ScanKind)
    requires
        0 <= i,
        i + 1 < cmds.len(),
        inner == nested + depth_step(cmds[i + 1], kind),
        !stops_at_depth_zero(cmds, i, nested, i + 1, kind),
    ensures
        i + 1 <= scan_target(cmds, i + 1, inner, kind) < cmds.len(),
        i + 2 < cmds.len() ==> i + 1 < scan_target(cmds, i + 1, inner, kind),
        forall|k: int| i < k < scan_target(cmds, i + 1, inner, kind) ==> !#[trigger] stops_at_depth_zero(
            cmds,
            i,
            nested,
            k,
            kind,
        ) && nested + depth_between(cmds, i + 1, k, kind) >= 0,
        scan_target(cmds, i + 1, inner, kind) == cmds.len() - 1 || stops_at_depth_zero(
            cmds,
            i,
            nested,
            scan_target(cmds, i + 1, inner, kind),
            kind,
        ),
    decreases cmds.len() - i, 0nat,
{
    let j = i + 1;
    lemma_scan_follows_depth(cmds, j, inner, kind);
    let t = scan_target(cmds, j, inner, kind);
    assert(depth_between(cmds, j, j, kind) == 0);
    assert forall|k: int| i < k < t implies !#[trigger] stops_at_depth_zero(cmds, i, nested, k, kind) && nested
        + depth_between(cmds, i + 1, k, kind) >= 0 by {
        if k > j {
            lemma_depth_between_front(cmds, j, k, kind);
            assert(!stops_at_depth_zero(cmds, j, inner, k, kind));
            assert(inner + depth_between(cmds, j + 1, k, kind) >= 0);
        }
    }
    if t > j {
        lemma_depth_between_front(cmds, j, t, kind);
        assert(nested + depth_between(cmds, i + 1, t, kind) == inner + depth_between(cmds, j + 1, t, kind));
    }
}

#[verifier::spinoff_prover]
proof fn lemma_scan_follows_depth(cmds: Seq<MacroCommandV>, i: int, nested: nat, kind: ScanKind)
    requires
        0 <= i < cmds.len(),
    ensures
        i <= scan_target(cmds, i, nested, kind) < cmds.len(),
        i + 1 < cmds.len() ==> i < scan_target(cmds, i, nested, kind),
        forall|k: int| i < k < scan_target(cmds, i, nested, kind) ==> !#[trigger] stops_at_depth_zero(cmds, i, nested, k, kind)
            && nested + depth_between(cmds, i + 1, k, kind) >= 0,
        scan_target(cmds, i, nested, kind) == cmds.len() - 1 || stops_at_depth_zero(
            cmds,
            i,
            nested,
            scan_target(cmds, i, nested, kind),
            kind,
        ),
    decreases cmds.len() - i, 1nat,
{
    if i + 1 < cmds.len() {
        let j = i + 1;
        let c = cmds[j];
        assert(depth_between(cmds, j, j, kind) == 0);
        if opens_block(c, kind) {
            lemma_scan_depth_shift(cmds, i, nested, nested + 1, kind);
        } else if kind is ElseOrEndIf && c is Else && nested == 0 {
            assert(stops_at_depth_zero(cmds, i, nested, j, kind));
        } else if closes_block(c, kind) {
            if nested != 0 {
                lemma_scan_depth_shift(cmds, i, nested, (nested - 1) as nat, kind);
            } else {
                assert(stops_at_depth_zero(cmds, i, nested, j, kind));
            }
        } else {
            lemma_scan_depth_shift(cmds, i, nested, nested, kind);
        }
    }
}

/// A forward scan from `i` lands on the block's own closing command: the
/// first `Else`/`EndIf` (`EndIf`; `EndLoop`) after `i` at nesting depth zero,
/// where each `If` command of every kind (each `Loop`) opens a level and each
/// `EndIf` (`EndLoop`) closes one; every nested block is skipped whole. With
/// no such command it stops at the last command.
pub proof fn lemma_scan_skips_nested_blocks(cmds: Seq<MacroCommandV>, i: int, kind: ScanKind)
    requires
        0 <= i,
        i + 1 < cmds.len(),
    ensures
        ({
            let t = scan_target(cmds, i, 0, kind);
            &&& i < t < cmds.len()
            &&& forall|k: int| i < k < t ==> !#[trigger] stops_at_depth_zero(cmds, i, 0, k, kind)
            &&& forall|k: int| i < k < t ==> #[trigger] depth_between(cmds, i + 1, k, kind) >= 0
            &&& stops_at_depth_zero(cmds, i, 0, t, kind) || t == cmds.len() - 1
        }),
{
    lemma_scan_follows_depth(cmds, i, 0, kind);
    let t = scan_target(cmds, i, 0, kind);
    assert forall|k: int| i < k < t implies #[trigger] depth_between(cmds, i + 1, k, kind) >= 0 by {
        assert(!stops_at_depth_zero(cmds, i, 0, k, kind) && 0 + depth_between(cmds, i + 1, k, kind) >= 0);
    }
}

/// A loop entered with `count` passes jumps back `count - 1` times, so its
/// body runs `count` times.
pub proof fn lemma_loop_runs_count(outer: Seq<(usize, u64)>, start: usize, count: u64)
    requires
        count >= 1,
    ensures
        jumps_before_exit(outer.push((start, count))) == count - 1,
    decreases count,
{
    let s = outer.push((start, count));
    assert(s.drop_last() =~= outer);
    if count > 1 {
        lemma_loop_runs_count(outer, start, (count - 1) as u64);
    }
}

// ---------------------------------------------------------------------------
// executable
// ---------------------------------------------------------------------------
/// Whether `c` opens a block, closes one, or is an `Else` that stops the scan.
fn scan_class(c: &MacroCommand, kind: ScanKind) -> (r: (bool, bool, bool))
    ensures
        r.0 == opens_block(c@, kind),
        r.1 == closes_block(c@, kind),
        r.2 == (kind is ElseOrEndIf && c@ is Else),
{
    let opens = match kind {
        ScanKind::EndLoop => matches!(c, MacroCommand::Loop { .. }),
        _ => matches!(c, MacroCommand::IfPixelColor { .. }) || matches!(c, MacroCommand::IfImageFound { .. })
            || matches!(c, MacroCommand::IfColorFound { .. }) || matches!(c, MacroCommand::IfCompare { .. }),
    };
    let closes = match kind {
        ScanKind::EndLoop => matches!(c, MacroCommand::EndLoop),
        _ => matches!(c, MacroCommand::EndIf),
    };
    let else_stops = match kind {
        ScanKind::ElseOrEndIf => matches!(c, MacroCommand::Else),
        _ => false,
    };
    (opens, closes, else_stops)
}

fn is_label_cmd(c: &MacroCommand) -> (r: Option<Vec<char>>)
    ensures
        match c@ {
            MacroCommandV::Label(n) => r matches Some(v) && v@ == n,
            _ => r is None,
        },
{
    match c {
        MacroCommand::Label(n) => Some(chars_of(n.as_str())),
        _ => None,
    }
}

impl ExecFrame {
    /// A frame at the start of `commands`, with no open loop.
    pub fn new(commands: Vec<MacroCommand>) -> (f: ExecFrame)
        ensures
            f.wf(),
            f.commands@ == commands@,
            f.idx == 0,
            f.loop_stack@.len() == 0,
    {
        let labels = Self::extract_labels(&commands);
        ExecFrame { commands, idx: 0, loop_stack: Vec::new(), labels }
    }

    fn extract_labels(commands: &Vec<MacroCommand>) -> (labels: Vec<(Vec<char>, usize)>)
        ensures
            labels@.map_values(|e: (Vec<char>, usize)| (e.0@, e.1 as int)) == label_entries(
                commands_view(commands@),
            ),
    {
        let mut labels: Vec<(Vec<char>, usize)> = Vec::new();
        let mut i: usize = 0;
        while i < commands.len()
            invariant
                i <= commands.len(),
                labels@.map_values(|e: (Vec<char>, usize)| (e.0@, e.1 as int)) == label_entries(
                    commands_view(commands@.take(i as int)),
                ),
            decreases commands.len() - i,
        {
            let ghost before = labels@;
            let ghost cv = commands_view(commands@.take(i as int + 1));
            assert(cv.drop_last() =~= commands_view(commands@.take(i as int)));
            assert(cv.last() == commands@[i as int]@);
            match is_label_cmd(&commands[i]) {
                Some(name) => {
                    labels.push((name, i));
                    assert(labels@.map_values(|e: (Vec<char>, usize)| (e.0@, e.1 as int))
                        =~= before.map_values(|e: (Vec<char>, usize)| (e.0@, e.1 as int)).push(
                        (cv.last()->Label_0, i as int),
                    ));
                },
                None => {},
            }
            i = i + 1;
        }
        assert(commands@.take(commands.len() as int) =~= commands@);
        labels
    }

    /// The index of the last label named `target`, as a jump to it lands there.
    pub fn find_label(&self, target: &str) -> (r: Option<usize>)
        requires
            self.wf(),
        ensures
            r == (match last_label(self.cmds(), target@) {
                Some(k) => Some(k as usize),
                None => None,
            }),
    {
        let t = chars_of(target);
        let mut k: usize = self.labels.len();
        proof {
            lemma_label_entries_last(self.cmds(), target@, k as int);
        }
        while k > 0
            invariant
                k <= self.labels.len(),
                self.wf(),
                t@ == target@,
                forall|j: int| k <= j < label_entries(self.cmds()).len() ==> #[trigger] label_entries(
                    self.cmds(),
                )[j].0 != t@,
            decreases k,
        {
            let ghost e = label_entries(self.cmds());
            assert(e[k - 1] == (self.labels@[k - 1].0@, self.labels@[k - 1].1 as int));
            if chars_eq(&self.labels[k - 1].0, &t) {
                proof {
                    lemma_label_entries_last(self.cmds(), target@, k as int);
                    lemma_label_index_in_range(self.cmds(), k - 1);
                }
                return Some(self.labels[k - 1].1);
            }
            k = k - 1;
        }
        proof {
            lemma_label_entries_last(self.cmds(), target@, 0);
        }
        None
    }

    fn scan(&mut self, kind: ScanKind)
        ensures
            final(self).idx == scan_target(old(self).cmds(), old(self).idx as int, 0, kind),
            final(self).commands == old(self).commands,
            final(self).loop_stack == old(self).loop_stack,
            final(self).labels == old(self).labels,
    {
        let ghost cmds = self.cmds();
        let ghost start = self.idx as int;
        let mut nested: usize = 0;
        while self.idx < self.commands.len() && self.idx + 1 < self.commands.len()
            invariant
                self.commands == old(self).commands,
                self.loop_stack == old(self).loop_stack,
                self.labels == old(self).labels,
                cmds == self.cmds(),
                cmds == old(self).cmds(),
                cmds.len() == self.commands@.len(),
                start == old(self).idx as int,
                nested <= self.idx,
                scan_target(cmds, start, 0, kind) == scan_target(cmds, self.idx as int, nested as nat, kind),
            decreases self.commands.len() - self.idx,
        {
            self.idx = self.idx + 1;
            assert(cmds[self.idx as int] == self.commands@[self.idx as int]@);
            let (opens, closes, else_stops) = scan_class(&self.commands[self.idx], kind);
            if opens {
                nested = nested + 1;
            } else if else_stops && nested == 0 {
                return;
            } else if closes {
                if nested == 0 {
                    return;
                }
                nested = nested - 1;
            }
        }
    }

    /// Moves to the `Else` or `EndIf` that closes the current condition.
    pub fn skip_to_else_or_endif(&mut self)
        ensures
            final(self).idx == scan_target(old(self).cmds(), old(self).idx as int, 0, ScanKind::ElseOrEndIf),
            final(self).commands == old(self).commands,
            final(self).loop_stack == old(self).loop_stack,
            final(self).labels == old(self).labels,
    {
        self.scan(ScanKind::ElseOrEndIf);
    }

    /// Moves to the `EndIf` that closes the current block.
    pub fn skip_to_endif(&mut self)
        ensures
            final(self).idx == scan_target(old(self).cmds(), old(self).idx as int, 0, ScanKind::EndIf),
            final(self).commands == old(self).commands,
            final(self).loop_stack == old(self).loop_stack,
            final(self).labels == old(self).labels,
    {
        self.scan(ScanKind::EndIf);
    }

    /// Moves to the `EndLoop` that closes the current loop.
    pub fn skip_to_endloop(&mut self)
        ensures
            final(self).idx == scan_target(old(self).cmds(), old(self).idx as int, 0, ScanKind::EndLoop),
            final(self).commands == old(self).commands,
            final(self).loop_stack == old(self).loop_stack,
            final(self).labels == old(self).labels,
    {
        self.scan(ScanKind::EndLoop);
    }
}

proof fn lemma_label_index_in_range(cmds: Seq<MacroCommandV>, k: int)
    requires
        0 <= k < label_entries(cmds).len(),
    ensures
        0 <= label_entries(cmds)[k].1 < cmds.len(),
    decreases cmds.len(),
{
    let prev = cmds.drop_last();
    lemma_label_entries_len(prev);
    if k < label_entries(prev).len() {
        lemma_label_index_in_range(prev, k);
        match cmds.last() {
            MacroCommandV::Label(n) => assert(label_entries(cmds)[k] == label_entries(prev)[k]),
            _ => {},
        }
    }
}

proof fn lemma_last_label_range(cmds: Seq<MacroCommandV>, t: Seq<char>)
    ensures
        last_label(cmds, t) matches Some(k) ==> 0 <= k < cmds.len(),
    decreases cmds.len(),
{
    if cmds.len() > 0 {
        lemma_last_label_range(cmds.drop_last(), t);
    }
}

proof fn lemma_label_entries_len(cmds: Seq<MacroCommandV>)
    ensures
        label_entries(cmds).len() <= cmds.len(),
    decreases cmds.len(),
{
    if cmds.len() > 0 {
        lemma_label_entries_len(cmds.drop_last());
    }
}

// ---------------------------------------------------------------------------
// flow commands
// ---------------------------------------------------------------------------
/// `Goto`: lands exactly on the label when there is one, else stays put.
pub fn execute_goto(target: &str, frame: &mut ExecFrame) -> (flow: FlowControl)
    requires
        old(frame).wf(),
    ensures
        final(frame).commands == old(frame).commands,
        final(frame).loop_stack == old(frame).loop_stack,
        final(frame).labels == old(frame).labels,
        match last_label(old(frame).cmds(), target@) {
            Some(k) => final(frame).idx == k && flow == FlowControl::Jump,
            None => final(frame).idx == old(frame).idx && flow == FlowControl::Continue,
        },
{
    proof {
        lemma_last_label_range(frame.cmds(), target@);
        assert(frame.cmds().len() == frame.commands@.len());
        assert(frame.commands.len() == frame.commands@.len());
    }
    match frame.find_label(target) {
        Some(k) => {
            frame.idx = k;
            FlowControl::Jump
        },
        None => FlowControl::Continue,
    }
}

/// `Else` reached by a taken branch: skip to the `EndIf`.
pub fn execute_else(frame: &mut ExecFrame) -> (flow: FlowControl)
    ensures
        final(frame).idx == scan_target(old(frame).cmds(), old(frame).idx as int, 0, ScanKind::EndIf),
        final(frame).commands == old(frame).commands,
        final(frame).loop_stack == old(frame).loop_stack,
        final(frame).labels == old(frame).labels,
        flow == FlowControl::Continue,
{
    frame.skip_to_endif();
    FlowControl::Continue
}

/// `Loop`: a zero count skips the body; otherwise the loop is entered,
/// unless it is the loop already innermost (a jump back to its start).
pub fn execute_loop_cmd(count: u64, frame: &mut ExecFrame) -> (flow: FlowControl)
    ensures
        final(frame).commands == old(frame).commands,
        final(frame).labels == old(frame).labels,
        flow == FlowControl::Continue,
        count == 0 ==> final(frame).idx == scan_target(old(frame).cmds(), old(frame).idx as int, 0, ScanKind::EndLoop)
            && final(frame).loop_stack@ == old(frame).loop_stack@,
        count != 0 ==> final(frame).idx == old(frame).idx,
        count != 0 && old(frame).loop_stack@.len() > 0 && old(frame).loop_stack@.last().0 == old(frame).idx
            ==> final(frame).loop_stack@ == old(frame).loop_stack@,
        count != 0 && !(old(frame).loop_stack@.len() > 0 && old(frame).loop_stack@.last().0 == old(frame).idx)
            ==> final(frame).loop_stack@ == old(frame).loop_stack@.push((old(frame).idx, count)),
{
    if count == 0 {
        frame.skip_to_endloop();
    } else {
        let n = frame.loop_stack.len();
        let innermost = n > 0 && frame.loop_stack[n - 1].0 == frame.idx;
        if !innermost {
            let at = frame.idx;
            frame.loop_stack.push((at, count));
        }
    }
    FlowControl::Continue
}

/// `EndLoop`: jumps back to the loop's start while passes remain, else leaves the loop.
pub fn execute_end_loop(frame: &mut ExecFrame) -> (flow: FlowControl)
    ensures
        final(frame).commands == old(frame).commands,
        final(frame).labels == old(frame).labels,
        final(frame).loop_stack@ == end_loop_step(old(frame).loop_stack@).0,
        match end_loop_step(old(frame).loop_stack@).1 {
            Some(start) => final(frame).idx == start && flow == FlowControl::Jump,
            None => final(frame).idx == old(frame).idx && flow == FlowControl::Continue,
        },
{
    match frame.loop_stack.pop() {
        Some((start, remaining)) => {
            if remaining > 1 {
                frame.loop_stack.push((start, remaining - 1));
                frame.idx = start;
                FlowControl::Jump
            } else {
                FlowControl::Continue
            }
        },
        None => FlowControl::Continue,
    }
}

/// `IfCompare` after its comparison: a false condition skips to the `Else` or `EndIf`.
pub fn execute_if_compare(holds: bool, frame: &mut ExecFrame) -> (flow: FlowControl)
    ensures
        final(frame).commands == old(frame).commands,
        final(frame).loop_stack == old(frame).loop_stack,
        final(frame).labels == old(frame).labels,
        flow == FlowControl::Continue,
        holds ==> final(frame).idx == old(frame).idx,
        !holds ==> final(frame).idx == scan_target(old(frame).cmds(), old(frame).idx as int, 0, ScanKind::ElseOrEndIf),
{
    if !holds {
        frame.skip_to_else_or_endif();
    }
    FlowControl::Continue
}

} // verus!

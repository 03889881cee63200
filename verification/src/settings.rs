//! User settings: delay units, recording and repeat modes, default hotkeys,
//! and the plain types shared with the screen and path code.
use vstd::prelude::*;
use crate::types::{Hotkey, Modifiers};
use crate::text::{chars_of, string_of, push_str};

verus! {

/// The unit a delay is entered in.
#[derive(Debug, Clone, Copy, PartialEq, Eq, Structural)]
pub enum DelayUnit {
    Milliseconds,
    Seconds,
    Minutes,
    Hours,
}

impl DelayUnit {
    pub open spec fn spec_label(self) -> Seq<char> {
        match self {
            DelayUnit::Milliseconds => "ms"@,
            DelayUnit::Seconds => "s"@,
            DelayUnit::Minutes => "m"@,
            DelayUnit::Hours => "h"@,
        }
    }

    /// The unit's short name.
    pub fn label(&self) -> (s: &'static str)
        ensures
            s@ == self.spec_label(),
    {
        match self {
            DelayUnit::Milliseconds => "ms",
            DelayUnit::Seconds => "s",
            DelayUnit::Minutes => "m",
            DelayUnit::Hours => "h",
        }
    }
}

/// What the record hotkey does to the current macro.
#[derive(Debug, Clone, Copy, PartialEq, Eq, Structural)]
pub enum RecordHotkeyBehavior {
    Overwrite,
    Append,
}

impl Default for RecordHotkeyBehavior {
    fn default() -> (b: Self)
        ensures
            b == RecordHotkeyBehavior::Append,
    {
        RecordHotkeyBehavior::Append
    }
}

/// How many times a macro plays.
#[derive(Debug, Clone, Copy, PartialEq, Eq, Structural)]
pub enum MacroRepeatMode {
    Once,
    Count(u32),
    Infinite,
}

pub open spec fn spec_max_loops(mode: MacroRepeatMode) -> Option<u32> {
    match mode {
        MacroRepeatMode::Once => Some(1),
        MacroRepeatMode::Count(n) => Some(n),
        MacroRepeatMode::Infinite => None,
    }
}

/// The number of passes a repeat mode allows; no limit for infinite repeat.
pub fn max_loops(mode: MacroRepeatMode) -> (r: Option<u32>)
    ensures
        r == spec_max_loops(mode),
{
    match mode {
        MacroRepeatMode::Once => Some(1),
        MacroRepeatMode::Count(n) => Some(n),
        MacroRepeatMode::Infinite => None,
    }
}

pub open spec fn spec_should_stop(killed: bool, max_loops: Option<u32>, loop_num: u32) -> bool {
    killed || (max_loops matches Some(m) && loop_num >= m)
}

/// Whether playback ends before another pass: it was stopped, or the passes
/// played reach the limit.
pub fn should_stop_playback(killed: bool, max_loops: Option<u32>, loop_num: u32) -> (stop: bool)
    ensures
        stop == spec_should_stop(killed, max_loops, loop_num),
{
    killed || match max_loops {
        Some(m) => loop_num >= m,
        None => false,
    }
}

/// Unless stopped, a macro plays exactly the passes its repeat mode allows:
/// after each of the first `n` passes another one follows, after the `n`-th
/// none does; infinite repeat never ends on its own.
pub proof fn lemma_repeat_count(mode: MacroRepeatMode, played: u32)
    ensures
        spec_max_loops(mode) matches Some(n) ==> (spec_should_stop(false, spec_max_loops(mode), played)
            <==> played >= n),
        mode == MacroRepeatMode::Once ==> (spec_should_stop(false, spec_max_loops(mode), played)
            <==> played >= 1),
        mode == MacroRepeatMode::Infinite ==> !spec_should_stop(false, spec_max_loops(mode), played),
        mode matches MacroRepeatMode::Count(n) ==> (spec_should_stop(false, spec_max_loops(mode), played)
            <==> played >= n),
        spec_should_stop(true, spec_max_loops(mode), played),
{
}

// ---------------------------------------------------------------------------
// default hotkeys
// ---------------------------------------------------------------------------
pub fn default_record_hotkey() -> (h: Option<Hotkey>)
    ensures
        h == Some(Hotkey { code: 65, mods: Modifiers::none() }),
{
    Some(Hotkey::plain(65))
}

pub fn default_abort_record_hotkey() -> (h: Option<Hotkey>)
    ensures
        h == Some(Hotkey { code: 66, mods: Modifiers::none() }),
{
    Some(Hotkey::plain(66))
}

pub fn default_play_hotkey() -> (h: Option<Hotkey>)
    ensures
        h == Some(Hotkey { code: 67, mods: Modifiers::none() }),
{
    Some(Hotkey::plain(67))
}

pub fn default_abort_play_hotkey() -> (h: Option<Hotkey>)
    ensures
        h == Some(Hotkey { code: 68, mods: Modifiers::none() }),
{
    Some(Hotkey::plain(68))
}

/// Shift with key code 37.
pub fn default_step_play_hotkey() -> (h: Option<Hotkey>)
    ensures
        h == Some(Hotkey { code: 37, mods: Modifiers { shift: true, ..Modifiers::none() } }),
{
    Some(Hotkey::new(37, Modifiers { ctrl: false, shift: true, alt: false, meta: false }))
}

pub fn default_capture_hotkey() -> (h: Option<Hotkey>)
    ensures
        h == Some(Hotkey { code: 60, mods: Modifiers::none() }),
{
    Some(Hotkey::plain(60))
}

/// The file name a macro is saved under: its name with the `.wmr` extension.
pub fn wmr_file_name(name: &str) -> (f: String)
    ensures
        f@ == name@ + ".wmr"@,
{
    let mut v = chars_of(name);
    push_str(&mut v, ".wmr");
    string_of(&v)
}

// ---------------------------------------------------------------------------
// plain types shared with the path code
// ---------------------------------------------------------------------------

/// How far a pointer move goes, by the path thresholds.
#[derive(Debug, Clone, Copy, PartialEq, Eq, Structural)]
pub enum MovementClass {
    Short,
    Medium,
    Long,
}

/// The speed curve of a humanized pointer move.
#[derive(Debug, Clone, Copy, PartialEq, Eq, Structural)]
pub enum VelocityProfile {
    MinJerk,
    LogNormal,
    TwoStageBallistic,
    Corrective,
}

} // verus!

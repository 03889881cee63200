//! What a global hotkey does: bind a pending key, or start, pause, step or
//! stop recording and playback.
use vstd::prelude::*;
use crate::types::{Hotkey, HotkeyEvent, Modifiers, spec_is_modifier_code};
use crate::settings::RecordHotkeyBehavior;

verus! {

/// The six actions a hotkey can be bound to.
#[derive(Debug, Clone, Copy, PartialEq, Eq, Structural)]
pub enum HotkeyTarget {
    Record,
    AbortRecord,
    Play,
    AbortPlay,
    StepPlay,
    Capture,
}

/// The key bound to each action, if any.
#[derive(Debug, Clone, Copy, PartialEq, Eq, Structural)]
pub struct HotkeyBindings {
    pub record: Option<Hotkey>,
    pub abort_record: Option<Hotkey>,
    pub play: Option<Hotkey>,
    pub abort_play: Option<Hotkey>,
    pub step_play: Option<Hotkey>,
    pub capture: Option<Hotkey>,
}

/// The actions waiting for the next key press to become their hotkey.
#[derive(Debug, Clone, Copy, PartialEq, Eq, Structural)]
pub struct PendingBinds {
    pub record: bool,
    pub abort_record: bool,
    pub play: bool,
    pub abort_play: bool,
    pub step_play: bool,
    pub capture: bool,
}

/// What a hotkey event leads to.
#[derive(Debug, Clone, Copy, PartialEq, Eq, Structural)]
pub enum HotkeyAction {
    /// A modifier, a release, or a key bound to nothing.
    Ignore,
    /// The key with the held modifiers became the hotkey of an action.
    Bind(HotkeyTarget, Hotkey),
    /// The hotkey of an action was pressed.
    Trigger(HotkeyTarget),
}

/// The first action waiting for a key, in the order record, abort record,
/// play, abort play, step play, capture.
pub open spec fn first_pending(p: PendingBinds) -> Option<HotkeyTarget> {
    if p.record {
        Some(HotkeyTarget::Record)
    } else if p.abort_record {
        Some(HotkeyTarget::AbortRecord)
    } else if p.play {
        Some(HotkeyTarget::Play)
    } else if p.abort_play {
        Some(HotkeyTarget::AbortPlay)
    } else if p.step_play {
        Some(HotkeyTarget::StepPlay)
    } else if p.capture {
        Some(HotkeyTarget::Capture)
    } else {
        None
    }
}

pub open spec fn bound_to(h: Option<Hotkey>, code: u16, mods: Modifiers) -> bool {
    h matches Some(k) && k.code == code && k.mods == mods
}

/// The action whose hotkey is `code` with `mods`, in the order capture,
/// record, abort record, play, abort play, step play.
pub open spec fn triggered(b: HotkeyBindings, code: u16, mods: Modifiers) -> Option<HotkeyTarget> {
    if bound_to(b.capture, code, mods) {
        Some(HotkeyTarget::Capture)
    } else if bound_to(b.record, code, mods) {
        Some(HotkeyTarget::Record)
    } else if bound_to(b.abort_record, code, mods) {
        Some(HotkeyTarget::AbortRecord)
    } else if bound_to(b.play, code, mods) {
        Some(HotkeyTarget::Play)
    } else if bound_to(b.abort_play, code, mods) {
        Some(HotkeyTarget::AbortPlay)
    } else if bound_to(b.step_play, code, mods) {
        Some(HotkeyTarget::StepPlay)
    } else {
        None
    }
}

pub open spec fn with_binding(b: HotkeyBindings, t: HotkeyTarget, h: Hotkey) -> HotkeyBindings {
    match t {
        HotkeyTarget::Record => HotkeyBindings { record: Some(h), ..b },
        HotkeyTarget::AbortRecord => HotkeyBindings { abort_record: Some(h), ..b },
        HotkeyTarget::Play => HotkeyBindings { play: Some(h), ..b },
        HotkeyTarget::AbortPlay => HotkeyBindings { abort_play: Some(h), ..b },
        HotkeyTarget::StepPlay => HotkeyBindings { step_play: Some(h), ..b },
        HotkeyTarget::Capture => HotkeyBindings { capture: Some(h), ..b },
    }
}

pub open spec fn without_pending(p: PendingBinds, t: HotkeyTarget) -> PendingBinds {
    match t {
        HotkeyTarget::Record => PendingBinds { record: false, ..p },
        HotkeyTarget::AbortRecord => PendingBinds { abort_record: false, ..p },
        HotkeyTarget::Play => PendingBinds { play: false, ..p },
        HotkeyTarget::AbortPlay => PendingBinds { abort_play: false, ..p },
        HotkeyTarget::StepPlay => PendingBinds { step_play: false, ..p },
        HotkeyTarget::Capture => PendingBinds { capture: false, ..p },
    }
}

/// The key bound to an action.
pub open spec fn binding_of(b: HotkeyBindings, t: HotkeyTarget) -> Option<Hotkey> {
    match t {
        HotkeyTarget::Record => b.record,
        HotkeyTarget::AbortRecord => b.abort_record,
        HotkeyTarget::Play => b.play,
        HotkeyTarget::AbortPlay => b.abort_play,
        HotkeyTarget::StepPlay => b.step_play,
        HotkeyTarget::Capture => b.capture,
    }
}

/// Whether an action waits for a key.
pub open spec fn is_pending(p: PendingBinds, t: HotkeyTarget) -> bool {
    match t {
        HotkeyTarget::Record => p.record,
        HotkeyTarget::AbortRecord => p.abort_record,
        HotkeyTarget::Play => p.play,
        HotkeyTarget::AbortPlay => p.abort_play,
        HotkeyTarget::StepPlay => p.step_play,
        HotkeyTarget::Capture => p.capture,
    }
}

/// A key triggers only an action it is bound to, with exactly the held
/// modifiers; binding a key to an action makes it that action's key and
/// leaves the others' keys alone, and the action no longer waits while the
/// others still do; the action bound first is one that was waiting, and
/// when none waits none is bound.
pub proof fn lemma_bindings_laws(b: HotkeyBindings, p: PendingBinds, t: HotkeyTarget, u: HotkeyTarget, h: Hotkey, code: u16, mods: Modifiers)
    ensures
        triggered(b, code, mods) matches Some(x) ==> binding_of(b, x) == Some(Hotkey { code: code, mods: mods }),
        triggered(b, code, mods) is None ==> forall|x: HotkeyTarget| !(#[trigger] binding_of(b, x) == Some(
            Hotkey { code: code, mods: mods },
        )),
        binding_of(with_binding(b, t, h), t) == Some(h),
        u != t ==> binding_of(with_binding(b, t, h), u) == binding_of(b, u),
        !is_pending(without_pending(p, t), t),
        u != t ==> is_pending(without_pending(p, t), u) == is_pending(p, u),
        first_pending(p) matches Some(x) ==> is_pending(p, x),
        first_pending(p) is None ==> forall|x: HotkeyTarget| !#[trigger] is_pending(p, x),
{
    assert forall|x: HotkeyTarget| triggered(b, code, mods) is None implies !(#[trigger] binding_of(b, x) == Some(
        Hotkey { code: code, mods: mods },
    )) by {
        match x {
            HotkeyTarget::Record => {},
            HotkeyTarget::AbortRecord => {},
            HotkeyTarget::Play => {},
            HotkeyTarget::AbortPlay => {},
            HotkeyTarget::StepPlay => {},
            HotkeyTarget::Capture => {},
        }
    }
    assert forall|x: HotkeyTarget| first_pending(p) is None implies !#[trigger] is_pending(p, x) by {
        match x {
            HotkeyTarget::Record => {},
            HotkeyTarget::AbortRecord => {},
            HotkeyTarget::Play => {},
            HotkeyTarget::AbortPlay => {},
            HotkeyTarget::StepPlay => {},
            HotkeyTarget::Capture => {},
        }
    }
}

fn is_bound(h: Option<Hotkey>, code: u16, mods: &Modifiers) -> (r: bool)
    ensures
        r == bound_to(h, code, *mods),
{
    match h {
        Some(k) => k.matches(code, mods),
        None => false,
    }
}

/// Handles one hotkey event: modifier keys update `mods`; a press binds the
/// first pending action to the key with the held modifiers, or else
/// triggers the action bound to it.
pub fn hotkey_action(
    event: &HotkeyEvent,
    mods: &mut Modifiers,
    pending: &mut PendingBinds,
    bindings: &mut HotkeyBindings,
) -> (a: HotkeyAction)
    ensures
        final(mods).ctrl == (if crate::types::is_ctrl(event.code) { event.pressed } else { old(mods).ctrl }),
        final(mods).shift == (if crate::types::is_shift(event.code) { event.pressed } else { old(mods).shift }),
        final(mods).alt == (if crate::types::is_alt(event.code) { event.pressed } else { old(mods).alt }),
        final(mods).meta == (if crate::types::is_meta(event.code) { event.pressed } else { old(mods).meta }),
        spec_is_modifier_code(event.code) || !event.pressed ==> a == HotkeyAction::Ignore && *final(pending)
            == *old(pending) && *final(bindings) == *old(bindings),
        !spec_is_modifier_code(event.code) && event.pressed ==> match first_pending(*old(pending)) {
            Some(t) => {
                let h = Hotkey { code: event.code, mods: *final(mods) };
                &&& a == HotkeyAction::Bind(t, h)
                &&& *final(bindings) == with_binding(*old(bindings), t, h)
                &&& *final(pending) == without_pending(*old(pending), t)
            },
            None => {
                &&& *final(pending) == *old(pending)
                &&& *final(bindings) == *old(bindings)
                &&& a == match triggered(*old(bindings), event.code, *final(mods)) {
                    Some(t) => HotkeyAction::Trigger(t),
                    None => HotkeyAction::Ignore,
                }
            },
        },
{
    if mods.apply(event.code, event.pressed) || !event.pressed {
        return HotkeyAction::Ignore;
    }
    let code = event.code;
    let held = *mods;
    let h = Hotkey::new(code, held);
    if pending.record {
        bindings.record = Some(h);
        pending.record = false;
        return HotkeyAction::Bind(HotkeyTarget::Record, h);
    }
    if pending.abort_record {
        bindings.abort_record = Some(h);
        pending.abort_record = false;
        return HotkeyAction::Bind(HotkeyTarget::AbortRecord, h);
    }
    if pending.play {
        bindings.play = Some(h);
        pending.play = false;
        return HotkeyAction::Bind(HotkeyTarget::Play, h);
    }
    if pending.abort_play {
        bindings.abort_play = Some(h);
        pending.abort_play = false;
        return HotkeyAction::Bind(HotkeyTarget::AbortPlay, h);
    }
    if pending.step_play {
        bindings.step_play = Some(h);
        pending.step_play = false;
        return HotkeyAction::Bind(HotkeyTarget::StepPlay, h);
    }
    if pending.capture {
        bindings.capture = Some(h);
        pending.capture = false;
        return HotkeyAction::Bind(HotkeyTarget::Capture, h);
    }
    if is_bound(bindings.capture, code, &held) {
        HotkeyAction::Trigger(HotkeyTarget::Capture)
    } else if is_bound(bindings.record, code, &held) {
        HotkeyAction::Trigger(HotkeyTarget::Record)
    } else if is_bound(bindings.abort_record, code, &held) {
        HotkeyAction::Trigger(HotkeyTarget::AbortRecord)
    } else if is_bound(bindings.play, code, &held) {
        HotkeyAction::Trigger(HotkeyTarget::Play)
    } else if is_bound(bindings.abort_play, code, &held) {
        HotkeyAction::Trigger(HotkeyTarget::AbortPlay)
    } else if is_bound(bindings.step_play, code, &held) {
        HotkeyAction::Trigger(HotkeyTarget::StepPlay)
    } else {
        HotkeyAction::Ignore
    }
}

/// Whether the app is recording or playing, and whether that is paused.
#[derive(Debug, Clone, Copy, PartialEq, Eq, Structural)]
pub struct Session {
    pub recording: bool,
    pub record_paused: bool,
    pub playing: bool,
    pub play_paused: bool,
}

/// What the app must do after a triggered hotkey.
#[derive(Debug, Clone, Copy, PartialEq, Eq, Structural)]
pub enum SessionAction {
    /// Nothing to do.
    Stay,
    /// Refused: playback is running.
    StopPlaybackFirst,
    /// Refused: recording is running.
    StopRecordingFirst,
    /// Start recording, appending to the current macro or replacing it.
    StartRecording { append: bool },
    StopRecording,
    /// Start playback, paused before the first command when `paused`.
    BeginPlayback { paused: bool },
    /// Recording was paused or resumed; the flag is the new state.
    RecordPaused(bool),
    /// Playback was paused or resumed; the flag is the new state.
    PlayPaused(bool),
    /// Playback was stopped.
    AbortPlayback,
    /// Playback paused after running one more command.
    StepOnce,
    /// Remember the cursor position.
    CaptureCursor,
}

/// The session after a triggered hotkey, and what the app must do.
pub open spec fn spec_session_step(t: HotkeyTarget, s: Session, behavior: RecordHotkeyBehavior) -> (Session, SessionAction) {
    match t {
        HotkeyTarget::Capture => (s, SessionAction::CaptureCursor),
        HotkeyTarget::Record => if !s.recording && s.playing {
            (s, SessionAction::StopPlaybackFirst)
        } else if s.recording {
            (Session { record_paused: !s.record_paused, ..s }, SessionAction::RecordPaused(!s.record_paused))
        } else {
            (s, SessionAction::StartRecording { append: behavior == RecordHotkeyBehavior::Append })
        },
        HotkeyTarget::AbortRecord => if s.recording {
            (s, SessionAction::StopRecording)
        } else {
            (s, SessionAction::Stay)
        },
        HotkeyTarget::Play => if !s.playing && s.recording {
            (s, SessionAction::StopRecordingFirst)
        } else if s.playing {
            (Session { play_paused: !s.play_paused, ..s }, SessionAction::PlayPaused(!s.play_paused))
        } else {
            (s, SessionAction::BeginPlayback { paused: false })
        },
        HotkeyTarget::AbortPlay => if s.playing {
            (Session { playing: false, play_paused: false, ..s }, SessionAction::AbortPlayback)
        } else {
            (s, SessionAction::Stay)
        },
        HotkeyTarget::StepPlay => if !s.playing && s.recording {
            (s, SessionAction::StopRecordingFirst)
        } else if s.playing {
            (Session { play_paused: true, ..s }, SessionAction::StepOnce)
        } else {
            (s, SessionAction::BeginPlayback { paused: true })
        },
    }
}

/// Pressing the record hotkey twice while recording, or the play hotkey
/// twice while playing, leaves the session as it was (pause, then resume).
/// Recording starts only when neither recording nor playback runs, and so
/// does playback; stopping playback leaves it neither running nor paused;
/// a capture, and a refusal, change nothing; recording is never stopped by
/// a playback hotkey, nor playback by a recording hotkey.
pub proof fn lemma_session_laws(t: HotkeyTarget, s: Session, behavior: RecordHotkeyBehavior)
    ensures
        s.recording ==> spec_session_step(
            HotkeyTarget::Record,
            spec_session_step(HotkeyTarget::Record, s, behavior).0,
            behavior,
        ).0 == s,
        s.playing ==> spec_session_step(HotkeyTarget::Play, spec_session_step(HotkeyTarget::Play, s, behavior).0, behavior).0
            == s,
        spec_session_step(t, s, behavior).1 matches SessionAction::StartRecording { .. } ==> !s.recording && !s.playing,
        spec_session_step(t, s, behavior).1 matches SessionAction::BeginPlayback { .. } ==> !s.recording && !s.playing,
        spec_session_step(t, s, behavior).1 == SessionAction::AbortPlayback ==> !spec_session_step(t, s, behavior).0.playing
            && !spec_session_step(t, s, behavior).0.play_paused,
        t == HotkeyTarget::Capture || spec_session_step(t, s, behavior).1 == SessionAction::StopPlaybackFirst
            || spec_session_step(t, s, behavior).1 == SessionAction::StopRecordingFirst || spec_session_step(
            t,
            s,
            behavior,
        ).1 == SessionAction::Stay ==> spec_session_step(t, s, behavior).0 == s,
        spec_session_step(t, s, behavior).0.recording == s.recording,
        spec_session_step(t, s, behavior).1 matches SessionAction::StartRecording { append } ==> append == (behavior
            == RecordHotkeyBehavior::Append),
        spec_session_step(t, s, behavior).1 matches SessionAction::BeginPlayback { paused } ==> paused == (t
            == HotkeyTarget::StepPlay),
        spec_session_step(t, s, behavior).1 == SessionAction::StepOnce ==> spec_session_step(t, s, behavior).0.play_paused,
        t == HotkeyTarget::Record || t == HotkeyTarget::AbortRecord || t == HotkeyTarget::Capture ==> spec_session_step(
            t,
            s,
            behavior,
        ).0.playing == s.playing && spec_session_step(t, s, behavior).0.play_paused == s.play_paused,
{
}

/// Applies a triggered hotkey to the session and says what the app must do.
pub fn session_step(t: HotkeyTarget, s: &mut Session, behavior: RecordHotkeyBehavior) -> (a: SessionAction)
    ensures
        (*final(s), a) == spec_session_step(t, *old(s), behavior),
{
    match t {
        HotkeyTarget::Capture => SessionAction::CaptureCursor,
        HotkeyTarget::Record => {
            if !s.recording && s.playing {
                SessionAction::StopPlaybackFirst
            } else if s.recording {
                s.record_paused = !s.record_paused;
                SessionAction::RecordPaused(s.record_paused)
            } else {
                SessionAction::StartRecording { append: behavior == RecordHotkeyBehavior::Append }
            }
        },
        HotkeyTarget::AbortRecord => {
            if s.recording {
                SessionAction::StopRecording
            } else {
                SessionAction::Stay
            }
        },
        HotkeyTarget::Play => {
            if !s.playing && s.recording {
                SessionAction::StopRecordingFirst
            } else if s.playing {
                s.play_paused = !s.play_paused;
                SessionAction::PlayPaused(s.play_paused)
            } else {
                SessionAction::BeginPlayback { paused: false }
            }
        },
        HotkeyTarget::AbortPlay => {
            if s.playing {
                s.playing = false;
                s.play_paused = false;
                SessionAction::AbortPlayback
            } else {
                SessionAction::Stay
            }
        },
        HotkeyTarget::StepPlay => {
            if !s.playing && s.recording {
                SessionAction::StopRecordingFirst
            } else if s.playing {
                s.play_paused = true;
                SessionAction::StepOnce
            } else {
                SessionAction::BeginPlayback { paused: true }
            }
        },
    }
}

} // verus!
